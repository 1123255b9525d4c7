//! Keeping the id tree and the search index in step with the volume: the full
//! enumeration at start-up, then each batch the change journal reports.
//!
//! The raw `DeviceIoControl` calls stay outside; this module decides what each
//! returned buffer does to the tree and the index, and what to ask for next.
use vstd::prelude::*;
use std::collections::HashMap;
use crate::bytes::{le_field, push_le8, read_le};
use crate::text::push_char;
use crate::frn_tree::{
    build_path, cache_view, ckey, ckey_spec, index_view, resolve_cache, resolve_path, resolves,
    resolves_exec,
    tree_view, Cache, FrnMap, Tree,
};
use crate::mft::{parse_records, records_from, RecordView, UsnRecord, USN_REASON_FILE_DELETE};

verus! {

broadcast use vstd::std_specs::hash::group_hash_axioms;

/// The tree after entering every record of an enumeration batch that carries a name.
pub open spec fn enum_fold(t: Tree, recs: Seq<RecordView>) -> Tree
    decreases recs.len(),
{
    if recs.len() == 0 {
        t
    } else {
        let r = recs[0];
        let t2 = if r.name.len() == 0 {
            t
        } else {
            t.insert(r.frn, (r.name, r.parent, r.is_dir))
        };
        enum_fold(t2, recs.drop_first())
    }
}

/// Whether `recs[k]` carries a name and no later record with a name has its id.
pub open spec fn last_named(recs: Seq<RecordView>, k: int) -> bool {
    &&& 0 <= k < recs.len()
    &&& recs[k].name.len() > 0
    &&& forall|j: int| k < j < recs.len() && recs[j].name.len() > 0 ==> recs[j].frn != recs[k].frn
}

/// Entering enumeration records leaves alone every id that no named record carries:
/// it is in the tree afterwards exactly when it was before, with the same entry.
pub proof fn lemma_enum_fold_untouched(t: Tree, recs: Seq<RecordView>, x: u64)
    requires
        forall|j: int| 0 <= j < recs.len() && recs[j].name.len() > 0 ==> recs[j].frn != x,
    ensures
        enum_fold(t, recs).contains_key(x) == t.contains_key(x),
        t.contains_key(x) ==> enum_fold(t, recs)[x] == t[x],
    decreases recs.len(),
{
    if recs.len() > 0 {
        let r = recs[0];
        let t2 = if r.name.len() > 0 {
            t.insert(r.frn, (r.name, r.parent, r.is_dir))
        } else {
            t
        };
        assert forall|j: int| 0 <= j < recs.drop_first().len() && recs.drop_first()[j].name.len()
            > 0 implies recs.drop_first()[j].frn != x by {
            assert(recs.drop_first()[j] == recs[j + 1]);
        }
        lemma_enum_fold_untouched(t2, recs.drop_first(), x);
    }
}

/// After entering enumeration records, the id of the last named record that carries it
/// maps to exactly that record's name, parent id and directory flag.
pub proof fn lemma_enum_fold_entry(t: Tree, recs: Seq<RecordView>, k: int)
    requires
        last_named(recs, k),
    ensures
        enum_fold(t, recs).contains_key(recs[k].frn),
        enum_fold(t, recs)[recs[k].frn] == (recs[k].name, recs[k].parent, recs[k].is_dir),
    decreases recs.len(),
{
    let r = recs[0];
    let t2 = if r.name.len() > 0 {
        t.insert(r.frn, (r.name, r.parent, r.is_dir))
    } else {
        t
    };
    let rest = recs.drop_first();
    if k == 0 {
        assert forall|j: int| 0 <= j < rest.len() && rest[j].name.len() > 0 implies rest[j].frn
            != r.frn by {
            assert(rest[j] == recs[j + 1]);
        }
        lemma_enum_fold_untouched(t2, rest, r.frn);
    } else {
        assert forall|j: int| k - 1 < j < rest.len() && rest[j].name.len() > 0 implies rest[j].frn
            != rest[k - 1].frn by {
            assert(rest[j] == recs[j + 1]);
        }
        assert(rest[k - 1] == recs[k]);
        lemma_enum_fold_entry(t2, rest, k - 1);
    }
}

/// Enters the records of one enumeration buffer into the tree. A buffer of at most
/// 8 bytes means the enumeration is over (`None`); otherwise its first 8 bytes are the
/// id to continue from, and the records after them are entered.
pub fn absorb_enum_batch(map: &mut FrnMap, buf: &[u8]) -> (r: Option<u64>)
    ensures
        buf@.len() <= 8 ==> r is None && final(map)@ == old(map)@,
        buf@.len() > 8 ==> r == Some(le_field(buf@, 0, 8) as u64) && tree_view(final(map)@)
            == enum_fold(tree_view(old(map)@), records_from(buf@, 8)),
        buf@.len() > 8 ==> forall|k: int| #[trigger] last_named(records_from(buf@, 8), k)
            ==> tree_view(final(map)@).contains_key(records_from(buf@, 8)[k].frn)
            && tree_view(final(map)@)[records_from(buf@, 8)[k].frn] == (
                records_from(buf@, 8)[k].name,
                records_from(buf@, 8)[k].parent,
                records_from(buf@, 8)[k].is_dir,
            ),
{
    if buf.len() <= 8 {
        return None;
    }
    let next = read_le(buf, 0, 8);
    let recs = parse_records(buf, 8);
    let ghost all = recs@.map_values(|x: UsnRecord| x@);
    let ghost t0 = tree_view(map@);
    let mut i: usize = 0;
    proof {
        assert(all.skip(0) =~= all);
    }
    while i < recs.len()
        invariant
            i <= recs@.len(),
            all == recs@.map_values(|x: UsnRecord| x@),
            enum_fold(tree_view(map@), all.skip(i as int)) == enum_fold(t0, all),
        decreases recs.len() - i,
    {
        let r = &recs[i];
        proof {
            assert(all.skip(i as int).drop_first() =~= all.skip(i + 1));
            assert(all.skip(i as int)[0] == r@);
        }
        if !r.name.as_str().is_empty() {
            let ghost before = tree_view(map@);
            map.insert(r.frn, (r.name.clone(), r.parent, r.is_dir));
            proof {
                assert(tree_view(map@) =~= before.insert(r.frn, (r.name@, r.parent, r.is_dir)));
            }
        } else {
            proof {
                assert(r.name@.len() == 0);
            }
        }
        i = i + 1;
    }
    proof {
        assert(all.skip(i as int) =~= Seq::<RecordView>::empty());
        assert forall|k: int| #[trigger] last_named(records_from(buf@, 8), k) implies tree_view(
            map@,
        ).contains_key(records_from(buf@, 8)[k].frn) && tree_view(map@)[records_from(
            buf@,
            8,
        )[k].frn] == (
            records_from(buf@, 8)[k].name,
            records_from(buf@, 8)[k].parent,
            records_from(buf@, 8)[k].is_dir,
        ) by {
            lemma_enum_fold_entry(t0, records_from(buf@, 8), k);
        }
    }
    Some(next)
}

/// What one journal batch has done so far.
pub struct JournalState {
    pub tree: Tree,
    pub index: Map<u128, Seq<char>>,
    pub cache: Cache,
    pub changed: bool,
    pub ok: bool,
}

/// Replaying journal records in order: one without a name changes nothing; a deletion
/// drops the id from the tree and its key from the index; any other record enters the
/// id into the tree and its freshly resolved path into the index (through the path
/// cache kept over the batch). `ok` says every resolution terminated.
pub open spec fn journal_fold(s: JournalState, d: char, recs: Seq<RecordView>) -> JournalState
    decreases recs.len(),
{
    if recs.len() == 0 {
        s
    } else {
        let r = recs[0];
        let s2 = if r.name.len() == 0 {
            s
        } else if r.reason & USN_REASON_FILE_DELETE != 0 {
            JournalState {
                tree: s.tree.remove(r.frn),
                index: s.index.remove(ckey_spec(d, r.frn) as u128),
                changed: true,
                ..s
            }
        } else {
            let t2 = s.tree.insert(r.frn, (r.name, r.parent, r.is_dir));
            JournalState {
                tree: t2,
                index: s.index.insert(ckey_spec(d, r.frn) as u128, resolve_path(t2, s.cache, d, r.frn)),
                cache: resolve_cache(t2, s.cache, d, r.frn),
                changed: true,
                ok: s.ok && resolves(t2, s.cache, r.frn),
            }
        };
        journal_fold(s2, d, recs.drop_first())
    }
}

pub open spec fn journal_start(t: Tree, idx: Map<u128, Seq<char>>) -> JournalState {
    JournalState { tree: t, index: idx, cache: Map::empty(), changed: false, ok: true }
}

proof fn lemma_fold_ok(s: JournalState, d: char, recs: Seq<RecordView>)
    requires
        journal_fold(s, d, recs).ok,
    ensures
        s.ok,
    decreases recs.len(),
{
    if recs.len() > 0 {
        let r = recs[0];
        if r.name.len() == 0 {
            lemma_fold_ok(s, d, recs.drop_first());
        } else if r.reason & USN_REASON_FILE_DELETE != 0 {
            let s2 = JournalState {
                tree: s.tree.remove(r.frn),
                index: s.index.remove(ckey_spec(d, r.frn) as u128),
                changed: true,
                ..s
            };
            lemma_fold_ok(s2, d, recs.drop_first());
        } else {
            let t2 = s.tree.insert(r.frn, (r.name, r.parent, r.is_dir));
            let s2 = JournalState {
                tree: t2,
                index: s.index.insert(ckey_spec(d, r.frn) as u128, resolve_path(t2, s.cache, d, r.frn)),
                cache: resolve_cache(t2, s.cache, d, r.frn),
                changed: true,
                ok: s.ok && resolves(t2, s.cache, r.frn),
            };
            lemma_fold_ok(s2, d, recs.drop_first());
        }
    }
}

/// Records that carry no name or name another file leave a file's index key as it was.
proof fn lemma_fold_untouched(s: JournalState, d: char, recs: Seq<RecordView>, frn: u64)
    requires
        forall|j: int| 0 <= j < recs.len() && (#[trigger] recs[j]).name.len() > 0 ==> recs[j].frn != frn,
    ensures
        journal_fold(s, d, recs).index.contains_key(ckey_spec(d, frn) as u128) == s.index.contains_key(
            ckey_spec(d, frn) as u128,
        ),
    decreases recs.len(),
{
    if recs.len() > 0 {
        let r = recs[0];
        let rest = recs.drop_first();
        assert forall|j: int| 0 <= j < rest.len() && (#[trigger] rest[j]).name.len() > 0 implies rest[j].frn != frn by {
            assert(rest[j] == recs[j + 1]);
        }
        if r.name.len() == 0 {
            lemma_fold_untouched(s, d, rest, frn);
        } else if r.reason & USN_REASON_FILE_DELETE != 0 {
            let s2 = JournalState {
                tree: s.tree.remove(r.frn),
                index: s.index.remove(ckey_spec(d, r.frn) as u128),
                changed: true,
                ..s
            };
            assert(ckey_spec(d, r.frn) as u128 != ckey_spec(d, frn) as u128);
            lemma_fold_untouched(s2, d, rest, frn);
        } else {
            let t2 = s.tree.insert(r.frn, (r.name, r.parent, r.is_dir));
            let s2 = JournalState {
                tree: t2,
                index: s.index.insert(ckey_spec(d, r.frn) as u128, resolve_path(t2, s.cache, d, r.frn)),
                cache: resolve_cache(t2, s.cache, d, r.frn),
                changed: true,
                ok: s.ok && resolves(t2, s.cache, r.frn),
            };
            assert(ckey_spec(d, r.frn) as u128 != ckey_spec(d, frn) as u128);
            lemma_fold_untouched(s2, d, rest, frn);
        }
    }
}

/// The index follows the journal: after a batch, a file's key is in the index exactly
/// when the last record naming that file is not a deletion.
pub proof fn lemma_journal_last_record(s: JournalState, d: char, recs: Seq<RecordView>, frn: u64, i: int)
    requires
        0 <= i < recs.len(),
        recs[i].frn == frn,
        recs[i].name.len() > 0,
        forall|j: int| i < j < recs.len() && (#[trigger] recs[j]).name.len() > 0 ==> recs[j].frn != frn,
    ensures
        journal_fold(s, d, recs).index.contains_key(ckey_spec(d, frn) as u128) == (recs[i].reason
            & USN_REASON_FILE_DELETE == 0),
    decreases i,
{
    let r = recs[0];
    let rest = recs.drop_first();
    let s2 = if r.name.len() == 0 {
        s
    } else if r.reason & USN_REASON_FILE_DELETE != 0 {
        JournalState {
            tree: s.tree.remove(r.frn),
            index: s.index.remove(ckey_spec(d, r.frn) as u128),
            changed: true,
            ..s
        }
    } else {
        let t2 = s.tree.insert(r.frn, (r.name, r.parent, r.is_dir));
        JournalState {
            tree: t2,
            index: s.index.insert(ckey_spec(d, r.frn) as u128, resolve_path(t2, s.cache, d, r.frn)),
            cache: resolve_cache(t2, s.cache, d, r.frn),
            changed: true,
            ok: s.ok && resolves(t2, s.cache, r.frn),
        }
    };
    assert(journal_fold(s, d, recs) == journal_fold(s2, d, rest));
    if i == 0 {
        assert forall|j: int| 0 <= j < rest.len() && (#[trigger] rest[j]).name.len() > 0 implies rest[j].frn != frn by {
            assert(rest[j] == recs[j + 1]);
        }
        lemma_fold_untouched(s2, d, rest, frn);
    } else {
        assert(rest[i - 1] == recs[i]);
        assert forall|j: int| i - 1 < j < rest.len() && (#[trigger] rest[j]).name.len() > 0 implies rest[j].frn != frn by {
            assert(rest[j] == recs[j + 1]);
        }
        lemma_journal_last_record(s2, d, rest, frn, i - 1);
    }
}

/// The rule for one journal record: one without a name changes nothing; a deletion
/// drops the file from the tree and its key from the index; any other record enters the
/// file into the tree and its freshly resolved path under its key. No other index key
/// changes.
pub proof fn lemma_journal_one_record(s: JournalState, d: char, r: RecordView)
    ensures
        r.name.len() == 0 ==> journal_fold(s, d, seq![r]) == s,
        r.name.len() > 0 && r.reason & USN_REASON_FILE_DELETE != 0 ==> {
            &&& journal_fold(s, d, seq![r]).tree == s.tree.remove(r.frn)
            &&& journal_fold(s, d, seq![r]).index == s.index.remove(ckey_spec(d, r.frn) as u128)
        },
        r.name.len() > 0 && r.reason & USN_REASON_FILE_DELETE == 0 ==> {
            let t2 = s.tree.insert(r.frn, (r.name, r.parent, r.is_dir));
            &&& journal_fold(s, d, seq![r]).tree == t2
            &&& journal_fold(s, d, seq![r]).index == s.index.insert(
                ckey_spec(d, r.frn) as u128,
                resolve_path(t2, s.cache, d, r.frn),
            )
        },
{
    reveal_with_fuel(journal_fold, 2);
    assert(seq![r].drop_first() =~= Seq::<RecordView>::empty());
    assert(seq![r][0] == r);
}

/// Applies journal records to the tree and the index, testing before each path
/// resolution that it terminates: `Some(changed)` (true when some record carried a name)
/// when every resolution on the way terminates, `None` as soon as one would not (a
/// parent cycle), the tree and index then being left partly updated.
pub fn try_apply_journal(
    map: &mut FrnMap,
    index: &mut HashMap<u128, String>,
    drive: char,
    recs: &Vec<UsnRecord>,
) -> (r: Option<bool>)
    ensures
        ({
            let f = journal_fold(
                journal_start(tree_view(old(map)@), index_view(old(index)@)),
                drive,
                recs@.map_values(|x: UsnRecord| x@),
            );
            &&& (r is Some <==> f.ok)
            &&& f.ok ==> {
                &&& tree_view(final(map)@) == f.tree
                &&& index_view(final(index)@) == f.index
                &&& r == Some(f.changed)
            }
        }),
{
    let ghost all = recs@.map_values(|x: UsnRecord| x@);
    let ghost goal = journal_fold(journal_start(tree_view(map@), index_view(index@)), drive, all);
    let mut cache: HashMap<u64, String> = HashMap::new();
    let mut changed = false;
    proof {
        assert(cache_view(cache@) =~= Map::<u64, Seq<char>>::empty());
        assert(all.skip(0) =~= all);
    }
    let mut i: usize = 0;
    while i < recs.len()
        invariant
            i <= recs@.len(),
            all == recs@.map_values(|x: UsnRecord| x@),
            journal_fold(
                JournalState {
                    tree: tree_view(map@),
                    index: index_view(index@),
                    cache: cache_view(cache@),
                    changed,
                    ok: true,
                },
                drive,
                all.skip(i as int),
            ) == goal,
            goal == journal_fold(journal_start(tree_view(old(map)@), index_view(old(index)@)), drive, all),
        decreases recs.len() - i,
    {
        let r = &recs[i];
        let ghost s = JournalState {
            tree: tree_view(map@),
            index: index_view(index@),
            cache: cache_view(cache@),
            changed,
            ok: true,
        };
        proof {
            assert(all.skip(i as int).drop_first() =~= all.skip(i + 1));
            assert(all.skip(i as int)[0] == r@);
        }
        if !r.name.as_str().is_empty() {
            if r.reason & USN_REASON_FILE_DELETE != 0 {
                let ghost t0 = tree_view(map@);
                let ghost i0 = index_view(index@);
                map.remove(&r.frn);
                let key = ckey(drive, r.frn);
                index.remove(&key);
                proof {
                    assert(tree_view(map@) =~= t0.remove(r.frn));
                    assert(index_view(index@) =~= i0.remove(key));
                }
                changed = true;
            } else {
                let ghost t0 = tree_view(map@);
                map.insert(r.frn, (r.name.clone(), r.parent, r.is_dir));
                let ends = resolves_exec(map, &cache, r.frn);
                proof {
                    assert(tree_view(map@) =~= t0.insert(r.frn, (r.name@, r.parent, r.is_dir)));
                    let t2 = tree_view(map@);
                    let s2 = JournalState {
                        tree: t2,
                        index: s.index.insert(ckey_spec(drive, r.frn) as u128, resolve_path(t2, s.cache, drive, r.frn)),
                        cache: resolve_cache(t2, s.cache, drive, r.frn),
                        changed: true,
                        ok: resolves(t2, s.cache, r.frn),
                    };
                    assert(journal_fold(s, drive, all.skip(i as int)) == journal_fold(s2, drive, all.skip(i + 1)));
                    if journal_fold(s2, drive, all.skip(i + 1)).ok {
                        lemma_fold_ok(s2, drive, all.skip(i + 1));
                    }
                    assert(!ends ==> !goal.ok);
                }
                if !ends {
                    return None;
                }
                let p = build_path(r.frn, map, drive, &mut cache);
                let key = ckey(drive, r.frn);
                let ghost i0 = index_view(index@);
                index.insert(key, p);
                proof {
                    assert(index_view(index@) =~= i0.insert(key, p@));
                }
                changed = true;
            }
        } else {
            proof {
                assert(r.name@.len() == 0);
            }
        }
        i = i + 1;
    }
    proof {
        assert(all.skip(i as int) =~= Seq::<RecordView>::empty());
    }
    Some(changed)
}

/// Applies journal records to the tree and the index; true when some record carried a
/// name. Every path resolution on the way must terminate (no parent cycle).
pub fn apply_journal(
    map: &mut FrnMap,
    index: &mut HashMap<u128, String>,
    drive: char,
    recs: &Vec<UsnRecord>,
) -> (changed: bool)
    requires
        journal_fold(
            journal_start(tree_view(old(map)@), index_view(old(index)@)),
            drive,
            recs@.map_values(|x: UsnRecord| x@),
        ).ok,
    ensures
        ({
            let f = journal_fold(
                journal_start(tree_view(old(map)@), index_view(old(index)@)),
                drive,
                recs@.map_values(|x: UsnRecord| x@),
            );
            &&& tree_view(final(map)@) == f.tree
            &&& index_view(final(index)@) == f.index
            &&& changed == f.changed
        }),
{
    match try_apply_journal(map, index, drive, recs) {
        Some(c) => c,
        None => false,
    }
}

/// The outcome of one journal batch.
pub struct JournalStep {
    /// Where the next read starts.
    pub next: i64,
    /// Some record carried a name.
    pub changed: bool,
}

/// Applies one buffer returned by a journal read. Under 8 bytes the read counts as
/// failed (`None`: wait and read again from the same place); otherwise the first
/// 8 bytes give the next start and the records after them are applied.
pub fn journal_batch(
    map: &mut FrnMap,
    index: &mut HashMap<u128, String>,
    drive: char,
    buf: &[u8],
) -> (r: Option<JournalStep>)
    requires
        buf@.len() >= 8 ==> journal_fold(
            journal_start(tree_view(old(map)@), index_view(old(index)@)),
            drive,
            records_from(buf@, 8),
        ).ok,
    ensures
        buf@.len() < 8 ==> r is None && final(map)@ == old(map)@ && final(index)@ == old(index)@,
        buf@.len() >= 8 ==> ({
            let f = journal_fold(
                journal_start(tree_view(old(map)@), index_view(old(index)@)),
                drive,
                records_from(buf@, 8),
            );
            &&& r matches Some(step)
            &&& step.next == le_field(buf@, 0, 8) as i64
            &&& step.changed == f.changed
            &&& tree_view(final(map)@) == f.tree
            &&& index_view(final(index)@) == f.index
        }),
{
    if buf.len() < 8 {
        return None;
    }
    let next = read_le(buf, 0, 8) as i64;
    let recs = parse_records(buf, 8);
    let changed = apply_journal(map, index, drive, &recs);
    Some(JournalStep { next, changed })
}

/// Applies one journal buffer as [`journal_batch`] does, first testing each path
/// resolution: `Some(step)` as `journal_batch` gives it when every resolution terminates
/// (or the read failed: `Some(None)`), `None` when one would not (a parent cycle among
/// the volume's ids), the tree and index then being left partly updated.
pub fn try_journal_batch(
    map: &mut FrnMap,
    index: &mut HashMap<u128, String>,
    drive: char,
    buf: &[u8],
) -> (r: Option<Option<JournalStep>>)
    ensures
        buf@.len() < 8 ==> (r matches Some(None) && final(map)@ == old(map)@ && final(index)@ == old(index)@),
        buf@.len() >= 8 ==> ({
            let f = journal_fold(
                journal_start(tree_view(old(map)@), index_view(old(index)@)),
                drive,
                records_from(buf@, 8),
            );
            &&& (r is Some <==> f.ok)
            &&& f.ok ==> {
                &&& r matches Some(Some(step))
                &&& step.next == le_field(buf@, 0, 8) as i64
                &&& step.changed == f.changed
                &&& tree_view(final(map)@) == f.tree
                &&& index_view(final(index)@) == f.index
            }
        }),
{
    if buf.len() < 8 {
        return Some(None);
    }
    let next = read_le(buf, 0, 8) as i64;
    let recs = parse_records(buf, 8);
    match try_apply_journal(map, index, drive, &recs) {
        Some(changed) => Some(Some(JournalStep { next, changed })),
        None => None,
    }
}

/// How long to wait before the next journal read: 1500 ms after a failed read, 700 ms
/// after a batch that changed nothing, none otherwise.
pub fn journal_delay_ms(step: &Option<JournalStep>) -> (ms: u64)
    ensures
        ms == match step {
            None => 1500u64,
            Some(s) => if s.changed { 0u64 } else { 700u64 },
        },
{
    match step {
        None => 1500,
        Some(s) => if s.changed { 0 } else { 700 },
    }
}

/// The enumeration request: records from id `start` on, for every USN
/// (`[0..8]` start id, `[8..16]` lowest USN 0, `[16..24]` highest USN `i64::MAX`).
pub fn enum_request(start: u64) -> (r: Vec<u8>)
    ensures
        r@.len() == 24,
        le_field(r@, 0, 8) == start,
        le_field(r@, 8, 8) == 0,
        le_field(r@, 16, 8) == 0x7fff_ffff_ffff_ffff,
{
    let mut r: Vec<u8> = Vec::new();
    push_le8(&mut r, start);
    let ghost a = r@;
    push_le8(&mut r, 0);
    let ghost b = r@;
    push_le8(&mut r, 0x7fff_ffff_ffff_ffff);
    proof {
        assert(r@.subrange(0, 8) =~= b.subrange(0, 8));
        assert(b.subrange(0, 8) =~= a.subrange(0, 8));
        assert(r@.subrange(8, 16) =~= b.subrange(8, 16));
    }
    r
}

/// The journal read request: from USN `next`, every reason bit, of journal `jid`
/// (`[0..8]` start USN, `[8..12]` reason mask all ones, `[12..32]` zero, `[32..40]` journal id).
pub fn journal_read_request(next: i64, jid: u64) -> (r: Vec<u8>)
    ensures
        r@.len() == 40,
        le_field(r@, 0, 8) == next as u64,
        forall|i: int| 8 <= i < 12 ==> r@[i] == 0xff,
        forall|i: int| 12 <= i < 32 ==> r@[i] == 0,
        le_field(r@, 32, 8) == jid,
{
    let mut r: Vec<u8> = Vec::new();
    push_le8(&mut r, next as u64);
    let ghost a = r@;
    let mut k: usize = 0;
    while k < 24
        invariant
            k <= 24,
            r@.len() == 8 + k,
            r@.subrange(0, 8) == a.subrange(0, 8),
            forall|i: int| 8 <= i < 8 + k && i < 12 ==> r@[i] == 0xff,
            forall|i: int| 12 <= i < 8 + k ==> r@[i] == 0,
        decreases 24 - k,
    {
        let ghost before = r@;
        if k < 4 {
            r.push(0xff);
        } else {
            r.push(0);
        }
        proof {
            assert(r@.subrange(0, 8) =~= before.subrange(0, 8));
        }
        k = k + 1;
    }
    let ghost b = r@;
    push_le8(&mut r, jid);
    proof {
        assert(r@.subrange(0, 8) =~= b.subrange(0, 8));
        assert(a.subrange(0, 8) =~= a);
        assert(b.len() == 32);
        assert(r@.subrange(0, 32) == b);
        assert forall|i: int| 8 <= i < 12 implies r@[i] == 0xff by {
            assert(r@.subrange(0, 32)[i] == r@[i]);
            assert(b[i] == 0xff);
        }
        assert forall|i: int| 12 <= i < 32 implies r@[i] == 0 by {
            assert(r@.subrange(0, 32)[i] == r@[i]);
            assert(b[i] == 0);
        }
    }
    r
}

/// Reads journal id and next USN out of a journal query reply (`[0..8]` and `[16..24]`).
pub fn decode_journal_query(buf: &[u8]) -> (r: (u64, i64))
    requires
        buf@.len() >= 24,
    ensures
        r.0 == le_field(buf@, 0, 8),
        r.1 == le_field(buf@, 16, 8) as i64,
{
    let jid = read_le(buf, 0, 8);
    let next = read_le(buf, 16, 8) as i64;
    (jid, next)
}

/// The raw volume path `\\.\D:` of a drive.
pub fn volume_path(drive: char) -> (r: String)
    ensures
        r@ == seq!['\\', '\\', '.', '\\', drive, ':'],
{
    let mut s = String::new();
    push_char(&mut s, '\\');
    push_char(&mut s, '\\');
    push_char(&mut s, '.');
    push_char(&mut s, '\\');
    push_char(&mut s, drive);
    push_char(&mut s, ':');
    s
}

} // verus!
