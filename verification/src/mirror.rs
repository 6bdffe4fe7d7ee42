//! The mirror of device records and the reconciliation cycle.
//!
//! A cycle takes one full fetch of the program's accounts and brings
//! the mirror to exactly the records that decode from it: every decoded
//! device record is upserted under its address, every address not seen
//! in the fetch is pruned, and the aggregate count is recomputed from
//! the mirror that results. The fetch is a full snapshot, so an address
//! absent from it no longer exists on the ledger; pruning on anything
//! less than a full snapshot would be unsound.

use crate::decode::{
    classify_account, deserialize_node_device, device_decode_ok, spec_classify, spec_device,
};
use crate::records::{
    AccountLayout, FetchError, FetchedAccount, NetworkStats, NodeDevice, NodeDeviceView,
};
use vstd::prelude::*;

verus! {

/// One row of the mirror: an account address and its decoded record.
pub struct MirrorRow {
    pub pubkey: String,
    pub device: NodeDevice,
}

/// The map a sequence of rows describes; a later row under the same
/// address overrides an earlier one.
pub open spec fn rows_map(rows: Seq<MirrorRow>) -> Map<Seq<char>, NodeDeviceView>
    decreases rows.len(),
{
    if rows.len() == 0 {
        Map::empty()
    } else {
        rows_map(rows.drop_last()).insert(rows.last().pubkey@, rows.last().device@)
    }
}

/// The set of addresses a list of seen addresses denotes.
pub open spec fn seen_keys(seen: Seq<String>) -> Set<Seq<char>> {
    Set::new(|k: Seq<char>| exists|i: int| 0 <= i < seen.len() && seen[i]@ == k)
}

/// The device records one full fetch decodes to: every account whose
/// buffer decodes as a device record maps its address to that record;
/// a later entry under the same address wins.
pub open spec fn device_map(fetch: Seq<FetchedAccount>) -> Map<Seq<char>, NodeDeviceView>
    decreases fetch.len(),
{
    if fetch.len() == 0 {
        Map::empty()
    } else {
        let rest = device_map(fetch.drop_last());
        let acc = fetch.last();
        if device_decode_ok(acc.data@) {
            rest.insert(acc.pubkey@, spec_device(acc.data@))
        } else {
            rest
        }
    }
}

/// The mirror after the upsert step of a cycle: every record decoded
/// from the fetch written over whatever the mirror held.
pub open spec fn upserted(
    mirror: Map<Seq<char>, NodeDeviceView>,
    fetch: Seq<FetchedAccount>,
) -> Map<Seq<char>, NodeDeviceView> {
    mirror.union_prefer_right(device_map(fetch))
}

/// The mirror after a whole cycle: the upsert step, then the prune step
/// that keeps only the addresses seen in this fetch.
pub open spec fn reconciled(
    mirror: Map<Seq<char>, NodeDeviceView>,
    fetch: Seq<FetchedAccount>,
) -> Map<Seq<char>, NodeDeviceView> {
    upserted(mirror, fetch).restrict(device_map(fetch).dom())
}

/// A completed cycle leaves the mirror at exactly the records decoded
/// from the fetch, whatever the mirror held before: one successful
/// cycle heals any drift, and the result never retains an address
/// absent from the fetch.
pub proof fn lemma_reconcile_converges(
    mirror: Map<Seq<char>, NodeDeviceView>,
    fetch: Seq<FetchedAccount>,
)
    ensures
        reconciled(mirror, fetch) == device_map(fetch),
{
    assert(reconciled(mirror, fetch) =~= device_map(fetch));
}

/// Reconciling the same fetch twice in a row leaves the mirror exactly
/// as it stood after the first reconciliation.
pub proof fn lemma_reconcile_idempotent(
    mirror: Map<Seq<char>, NodeDeviceView>,
    fetch: Seq<FetchedAccount>,
)
    ensures
        reconciled(reconciled(mirror, fetch), fetch) == reconciled(mirror, fetch),
{
    lemma_reconcile_converges(mirror, fetch);
    lemma_reconcile_converges(reconciled(mirror, fetch), fetch);
}

/// A buffer of an unrecognized length contributes nothing to a cycle:
/// adding such an account to a fetch leaves its decoded records, and
/// with them the reconciled mirror, unchanged.
pub proof fn lemma_unknown_layout_skipped(fetch: Seq<FetchedAccount>, acc: FetchedAccount)
    requires
        spec_classify(acc.data@.len() as int) is Unknown,
    ensures
        device_map(fetch.push(acc)) == device_map(fetch),
{
    assert(fetch.push(acc).drop_last() =~= fetch);
    assert(!device_decode_ok(acc.data@));
}

/// The relational mirror: one row per device account seen on the
/// ledger, keyed by address. Its value is the map from addresses to
/// decoded records.
pub struct Mirror {
    rows: Vec<MirrorRow>,
}

impl View for Mirror {
    type V = Map<Seq<char>, NodeDeviceView>;

    closed spec fn view(&self) -> Map<Seq<char>, NodeDeviceView> {
        rows_map(self.rows@)
    }
}

/// The addresses of the rows are pairwise distinct.
pub open spec fn rows_distinct(rows: Seq<MirrorRow>) -> bool {
    forall|i: int, j: int|
        0 <= i < j < rows.len() ==> rows[i].pubkey@ != rows[j].pubkey@
}

/// What a sequence of distinct-keyed rows says of the map it describes:
/// its keys are exactly the row addresses, each key holds its row's
/// record, and there are as many keys as rows.
proof fn lemma_rows_map_props(rows: Seq<MirrorRow>)
    requires
        rows_distinct(rows),
    ensures
        forall|k: Seq<char>| #[trigger]
            rows_map(rows).contains_key(k) <==> exists|i: int|
                0 <= i < rows.len() && rows[i].pubkey@ == k,
        forall|i: int|
            0 <= i < rows.len() ==> #[trigger] rows_map(rows)[rows[i].pubkey@] == rows[i].device@,
        rows_map(rows).dom().finite(),
        rows_map(rows).len() == rows.len(),
    decreases rows.len(),
{
    if rows.len() > 0 {
        let prefix = rows.drop_last();
        let last = rows.last();
        assert(rows_distinct(prefix));
        lemma_rows_map_props(prefix);
        assert(forall|i: int| 0 <= i < prefix.len() ==> prefix[i] == rows[i]);
        assert(!rows_map(prefix).contains_key(last.pubkey@));
        assert(forall|i: int|
            0 <= i < rows.len() ==> #[trigger] rows_map(rows)[rows[i].pubkey@]
                == rows[i].device@) by {
            assert(forall|i: int|
                0 <= i < prefix.len() ==> rows[i].pubkey@ != last.pubkey@);
        }
    }
}

/// Updating the row at a given index with a row under the same address
/// is an insert on the described map.
proof fn lemma_rows_map_update(rows: Seq<MirrorRow>, i: int, row: MirrorRow)
    requires
        rows_distinct(rows),
        0 <= i < rows.len(),
        row.pubkey@ == rows[i].pubkey@,
    ensures
        rows_map(rows.update(i, row)) == rows_map(rows).insert(row.pubkey@, row.device@),
    decreases rows.len(),
{
    let updated = rows.update(i, row);
    if i == rows.len() - 1 {
        assert(updated.drop_last() =~= rows.drop_last());
        assert(updated.last() == row);
        assert(rows_map(updated) =~= rows_map(rows).insert(row.pubkey@, row.device@));
    } else {
        let prefix = rows.drop_last();
        assert(rows_distinct(prefix));
        assert(forall|j: int| 0 <= j < prefix.len() ==> prefix[j] == rows[j]);
        lemma_rows_map_update(prefix, i, row);
        assert(updated.drop_last() =~= prefix.update(i, row));
        assert(updated.last() == rows.last());
        assert(rows[i].pubkey@ != rows.last().pubkey@);
        assert(rows_map(updated) =~= rows_map(rows).insert(row.pubkey@, row.device@));
    }
}

/// Whether one of the seen addresses reads as the given one.
fn contains_string(seen: &Vec<String>, x: &String) -> (found: bool)
    ensures
        found == seen_keys(seen@).contains(x@),
{
    let n = seen.len();
    let mut i: usize = 0;
    while i < n
        invariant
            n == seen@.len(),
            i <= n,
            forall|j: int| 0 <= j < i ==> seen@[j]@ != x@,
        decreases n - i,
    {
        if seen[i] == *x {
            assert(seen_keys(seen@).contains(x@));
            return true;
        }
        i = i + 1;
    }
    assert(!seen_keys(seen@).contains(x@));
    false
}

impl Mirror {
    /// The addresses of the rows are pairwise distinct, so each address
    /// keys at most one row.
    pub closed spec fn wf(&self) -> bool {
        rows_distinct(self.rows@)
    }

    /// An empty mirror.
    pub fn new() -> (mirror: Mirror)
        ensures
            mirror.wf(),
            mirror@ == Map::<Seq<char>, NodeDeviceView>::empty(),
    {
        Mirror { rows: Vec::new() }
    }

    /// How many device records the mirror holds.
    pub fn len(&self) -> (count: usize)
        requires
            self.wf(),
        ensures
            count == self@.len(),
    {
        proof {
            lemma_rows_map_props(self.rows@);
        }
        self.rows.len()
    }

    /// Write a record under an address: insert it if the address is
    /// new, overwrite the record held under it otherwise.
    pub fn upsert(&mut self, pubkey: String, device: NodeDevice)
        requires
            old(self).wf(),
        ensures
            final(self).wf(),
            final(self)@ == old(self)@.insert(pubkey@, device@),
    {
        let n = self.rows.len();
        let mut i: usize = 0;
        while i < n
            invariant
                n == self.rows@.len(),
                i <= n,
                old(self).wf(),
                self == old(self),
                forall|j: int| 0 <= j < i ==> self.rows@[j].pubkey@ != pubkey@,
            decreases n - i,
        {
            if self.rows[i].pubkey == pubkey {
                let ghost rows = self.rows@;
                let ghost idx = i as int;
                self.rows[i] = MirrorRow { pubkey, device };
                proof {
                    let updated = self.rows@;
                    assert(forall|a: int|
                        0 <= a < updated.len() && a != idx ==> updated[a] == rows[a]);
                    assert(rows_distinct(updated));
                    lemma_rows_map_update(rows, idx, updated[idx]);
                }
                return ;
            }
            i = i + 1;
        }
        let ghost rows = self.rows@;
        self.rows.push(MirrorRow { pubkey, device });
        proof {
            assert(self.rows@.drop_last() =~= rows);
        }
    }

    /// The prune step: drop every row whose address is not among the
    /// seen ones, keeping exactly the mirror restricted to them.
    pub fn prune(&mut self, seen: &Vec<String>)
        requires
            old(self).wf(),
        ensures
            final(self).wf(),
            final(self)@ == old(self)@.restrict(seen_keys(seen@)),
    {
        let ghost orig = self.rows@;
        let ghost s = seen_keys(seen@);
        let total = self.rows.len();
        proof {
            assert(orig.len() == total);
        }
        let mut kept: Vec<MirrorRow> = Vec::new();
        let mut k: usize = 0;
        while self.rows.len() > 0
            invariant
                rows_distinct(orig),
                k <= orig.len(),
                orig.len() <= usize::MAX,
                self.rows@ =~= orig.skip(k as int),
                s == seen_keys(seen@),
                rows_distinct(kept@),
                forall|a: int| #![trigger kept@[a]]
                    0 <= a < kept@.len() ==> exists|b: int|
                        0 <= b < k && kept@[a].pubkey@ == orig[b].pubkey@,
                rows_map(kept@) == rows_map(orig.take(k as int)).restrict(s),
            decreases self.rows@.len(),
        {
            let row = self.rows.remove(0);
            proof {
                assert(row == orig[k as int]);
                assert(self.rows@ =~= orig.skip(k as int + 1));
                assert(orig.take(k as int + 1).drop_last() =~= orig.take(k as int));
            }
            let is_seen = contains_string(seen, &row.pubkey);
            if is_seen {
                let ghost kept_before = kept@;
                kept.push(row);
                proof {
                    assert(kept@.drop_last() =~= kept_before);
                    assert(forall|a: int|
                        0 <= a < kept_before.len() ==> kept_before[a].pubkey@
                            != orig[k as int].pubkey@);
                    assert(rows_map(kept@) =~= rows_map(orig.take(k as int + 1)).restrict(s));
                }
            } else {
                proof {
                    assert(rows_map(kept@) =~= rows_map(orig.take(k as int + 1)).restrict(s));
                }
            }
            k = k + 1;
        }
        proof {
            assert(orig.take(k as int) =~= orig);
        }
        self.rows = kept;
    }

    /// The rows the mirror holds: one per address it maps, each with
    /// the record held under that address.
    pub fn rows(&self) -> (rows: &Vec<MirrorRow>)
        requires
            self.wf(),
        ensures
            rows@.len() == self@.len(),
            forall|i: int| #![trigger rows@[i]]
                0 <= i < rows@.len() ==> self@.contains_key(rows@[i].pubkey@)
                    && self@[rows@[i].pubkey@] == rows@[i].device@,
    {
        proof {
            lemma_rows_map_props(self.rows@);
        }
        &self.rows
    }

    /// Whether the mirror holds a record under the given address.
    pub fn contains(&self, pubkey: &String) -> (found: bool)
        requires
            self.wf(),
        ensures
            found == self@.contains_key(pubkey@),
    {
        proof {
            lemma_rows_map_props(self.rows@);
        }
        let n = self.rows.len();
        let mut i: usize = 0;
        while i < n
            invariant
                n == self.rows@.len(),
                i <= n,
                self.wf(),
                forall|j: int| 0 <= j < i ==> self.rows@[j].pubkey@ != pubkey@,
            decreases n - i,
        {
            if self.rows[i].pubkey == *pubkey {
                proof {
                    lemma_rows_map_props(self.rows@);
                }
                return true;
            }
            i = i + 1;
        }
        false
    }

    /// The record held under an address, if any.
    pub fn get(&self, pubkey: &String) -> (record: Option<&NodeDevice>)
        requires
            self.wf(),
        ensures
            record matches Some(device) ==> self@.contains_key(pubkey@) && self@[pubkey@]
                == device@,
            record is None ==> !self@.contains_key(pubkey@),
    {
        proof {
            lemma_rows_map_props(self.rows@);
        }
        let n = self.rows.len();
        let mut i: usize = 0;
        while i < n
            invariant
                n == self.rows@.len(),
                i <= n,
                self.wf(),
                forall|j: int| 0 <= j < i ==> self.rows@[j].pubkey@ != pubkey@,
            decreases n - i,
        {
            if self.rows[i].pubkey == *pubkey {
                proof {
                    lemma_rows_map_props(self.rows@);
                }
                return Some(&self.rows[i].device);
            }
            i = i + 1;
        }
        None
    }

    /// One reconciliation cycle against a completed fetch: upsert every
    /// account that decodes as a device record, prune every address not
    /// seen in this fetch, then recompute the aggregate count from the
    /// mirror that results. The mirror ends at exactly the records the
    /// fetch decodes to, whatever it held before.
    pub fn reconcile(&mut self, fetch: &Vec<FetchedAccount>) -> (stats: NetworkStats)
        requires
            old(self).wf(),
        ensures
            final(self).wf(),
            final(self)@ == reconciled(old(self)@, fetch@),
            final(self)@ == device_map(fetch@),
            stats.total_nodes == final(self)@.len(),
    {
        let mut seen: Vec<String> = Vec::new();
        let n = fetch.len();
        let mut i: usize = 0;
        while i < n
            invariant
                old(self).wf(),
                n == fetch@.len(),
                i <= n,
                self.wf(),
                self@ == upserted(old(self)@, fetch@.take(i as int)),
                seen_keys(seen@) =~= device_map(fetch@.take(i as int)).dom(),
            decreases n - i,
        {
            let acc = &fetch[i];
            proof {
                assert(fetch@.take(i as int + 1).drop_last() =~= fetch@.take(i as int));
            }
            let layout = classify_account(acc.data.as_slice());
            if layout == AccountLayout::DeviceLayout {
                match deserialize_node_device(acc.data.as_slice()) {
                    Ok(device) => {
                        let ghost seen_before = seen@;
                        seen.push(acc.pubkey.clone());
                        self.upsert(acc.pubkey.clone(), device);
                        proof {
                            let pk = acc.pubkey@;
                            let dom_after = device_map(fetch@.take(i as int + 1)).dom();
                            assert(self@ =~= upserted(
                                old(self)@,
                                fetch@.take(i as int + 1),
                            ));
                            assert forall|key: Seq<char>|
                                seen_keys(seen@).contains(key) implies dom_after.contains(
                                key,
                            ) by {
                                let a = choose|a: int|
                                    0 <= a < seen@.len() && seen@[a]@ == key;
                                if a < seen_before.len() {
                                    assert(seen_before[a]@ == key);
                                    assert(seen_keys(seen_before).contains(key));
                                } else {
                                    assert(seen@[a]@ == pk);
                                }
                            }
                            assert forall|key: Seq<char>|
                                dom_after.contains(key) implies seen_keys(seen@).contains(
                                key,
                            ) by {
                                if key == pk {
                                    assert(seen@[seen@.len() - 1]@ == key);
                                } else {
                                    assert(seen_keys(seen_before).contains(key));
                                    let a = choose|a: int|
                                        0 <= a < seen_before.len() && seen_before[a]@ == key;
                                    assert(seen@[a]@ == key);
                                }
                            }
                            assert(seen_keys(seen@) =~= dom_after);
                        }
                    },
                    Err(_) => {
                        proof {
                            assert(!device_decode_ok(acc.data@));
                        }
                    },
                }
            } else {
                proof {
                    assert(!device_decode_ok(acc.data@));
                }
            }
            i = i + 1;
        }
        proof {
            assert(fetch@.take(n as int) =~= fetch@);
        }
        self.prune(&seen);
        proof {
            lemma_reconcile_converges(old(self)@, fetch@);
            assert(self@ =~= reconciled(old(self)@, fetch@));
        }
        let count = self.len();
        NetworkStats { total_nodes: count as u64 }
    }
}

/// Drive one poll cycle from the outcome of the fetch step. A failed
/// fetch completes no cycle and leaves mirror and aggregate untouched;
/// a completed fetch is reconciled in full, and the aggregate then
/// equals the mirror's row count.
pub fn run_cycle(
    mirror: &mut Mirror,
    stats: &mut NetworkStats,
    fetch: &Result<Vec<FetchedAccount>, FetchError>,
) -> (completed: bool)
    requires
        old(mirror).wf(),
    ensures
        final(mirror).wf(),
        fetch is Err ==> !completed && final(mirror)@ == old(mirror)@ && *final(stats) == *old(
            stats,
        ),
        fetch matches Ok(accounts) ==> completed && final(mirror)@ == device_map(accounts@)
            && final(stats).total_nodes == final(mirror)@.len(),
{
    match fetch {
        Ok(accounts) => {
            let new_stats = mirror.reconcile(accounts);
            *stats = new_stats;
            true
        },
        Err(_) => false,
    }
}

} // verus!
