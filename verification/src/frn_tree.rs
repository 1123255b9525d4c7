//! The file-reference-number tree of a volume: id -> (name, parent id, is-directory),
//! full-path resolution over it with a path cache, and the search index built from it.
use vstd::prelude::*;
use std::collections::HashMap;
use crate::text::push_char;

verus! {

broadcast use vstd::std_specs::hash::group_hash_axioms;

/// id -> (name, parent id, is-directory), as the volume reports it.
pub type FrnMap = HashMap<u64, (String, u64, bool)>;

/// The tree with names taken as character sequences.
pub type Tree = Map<u64, (Seq<char>, u64, bool)>;

/// A path cache with paths taken as character sequences.
pub type Cache = Map<u64, Seq<char>>;

pub open spec fn tree_view(m: Map<u64, (String, u64, bool)>) -> Tree {
    m.map_values(|v: (String, u64, bool)| (v.0@, v.1, v.2))
}

pub open spec fn cache_view(c: Map<u64, String>) -> Cache {
    c.map_values(|s: String| s@)
}

/// `D:`, the root of drive `d`.
pub open spec fn drive_root(d: char) -> Seq<char> {
    seq![d, ':']
}

/// `base\name`.
pub open spec fn join(base: Seq<char>, name: Seq<char>) -> Seq<char> {
    base + seq!['\\'] + name
}

/// Resolution of `frn` stops here: its path is cached, it is unknown, or it is its own parent.
pub open spec fn stops(t: Tree, c: Cache, frn: u64) -> bool {
    c.contains_key(frn) || !t.contains_key(frn) || t[frn].1 == frn
}

/// Following parent links from `frn` reaches a stop within `n` steps.
pub open spec fn chain_ends(t: Tree, c: Cache, frn: u64, n: nat) -> bool
    decreases n,
{
    stops(t, c, frn) || (n > 0 && chain_ends(t, c, t[frn].1, (n - 1) as nat))
}

/// The path of `frn`: a cached path as it stands; an unknown id is the drive root; an
/// id that is its own parent sits right under the drive root; any other id is its
/// parent's path, a backslash and its name.
pub open spec fn memo_path(t: Tree, c: Cache, d: char, frn: u64, n: nat) -> Seq<char>
    decreases n,
{
    if c.contains_key(frn) {
        c[frn]
    } else if !t.contains_key(frn) {
        drive_root(d)
    } else if t[frn].1 == frn {
        join(drive_root(d), t[frn].0)
    } else if n == 0 {
        drive_root(d)
    } else {
        join(memo_path(t, c, d, t[frn].1, (n - 1) as nat), t[frn].0)
    }
}

/// The cache after resolving `frn`: every id met on the way up to the stop, that stop
/// included unless it was a cache hit, gains its path.
pub open spec fn memo_cache(t: Tree, c: Cache, d: char, frn: u64, n: nat) -> Cache
    decreases n,
{
    if c.contains_key(frn) {
        c
    } else if !t.contains_key(frn) || t[frn].1 == frn || n == 0 {
        c.insert(frn, memo_path(t, c, d, frn, n))
    } else {
        memo_cache(t, c, d, t[frn].1, (n - 1) as nat).insert(frn, memo_path(t, c, d, frn, n))
    }
}

/// Resolving `frn` terminates.
pub open spec fn resolves(t: Tree, c: Cache, frn: u64) -> bool {
    exists|n: nat| chain_ends(t, c, frn, n)
}

pub open spec fn fuel_for(t: Tree, c: Cache, frn: u64) -> nat {
    choose|n: nat| chain_ends(t, c, frn, n)
}

/// The path that resolving `frn` against cache `c` yields.
pub open spec fn resolve_path(t: Tree, c: Cache, d: char, frn: u64) -> Seq<char> {
    memo_path(t, c, d, frn, fuel_for(t, c, frn))
}

/// The cache that resolving `frn` against cache `c` leaves.
pub open spec fn resolve_cache(t: Tree, c: Cache, d: char, frn: u64) -> Cache {
    memo_cache(t, c, d, frn, fuel_for(t, c, frn))
}

/// The full path of `frn` in the tree alone.
pub open spec fn path_of(t: Tree, d: char, frn: u64) -> Seq<char> {
    resolve_path(t, Map::empty(), d, frn)
}

/// Every cached path is the id's full path in the tree.
pub open spec fn cache_agrees(t: Tree, c: Cache, d: char) -> bool {
    forall|k: u64|
        #[trigger] c.contains_key(k) ==> resolves(t, Map::empty(), k) && c[k] == path_of(t, d, k)
}

proof fn lemma_fuel_mono(t: Tree, c: Cache, d: char, frn: u64, n1: nat, n2: nat)
    requires
        chain_ends(t, c, frn, n1),
        n1 <= n2,
    ensures
        chain_ends(t, c, frn, n2),
        memo_path(t, c, d, frn, n1) == memo_path(t, c, d, frn, n2),
        memo_cache(t, c, d, frn, n1) == memo_cache(t, c, d, frn, n2),
    decreases n1,
{
    if !stops(t, c, frn) {
        lemma_fuel_mono(t, c, d, t[frn].1, (n1 - 1) as nat, (n2 - 1) as nat);
    }
}

/// Any two fuels that suffice give the same path and cache.
proof fn lemma_fuel_any(t: Tree, c: Cache, d: char, frn: u64, n: nat)
    requires
        chain_ends(t, c, frn, n),
    ensures
        resolves(t, c, frn),
        resolve_path(t, c, d, frn) == memo_path(t, c, d, frn, n),
        resolve_cache(t, c, d, frn) == memo_cache(t, c, d, frn, n),
{
    let f = fuel_for(t, c, frn);
    if f <= n {
        lemma_fuel_mono(t, c, d, frn, f, n);
    } else {
        lemma_fuel_mono(t, c, d, frn, n, f);
    }
}

fn drive_root_string(d: char) -> (r: String)
    ensures
        r@ == drive_root(d),
{
    let mut s = String::new();
    push_char(&mut s, d);
    push_char(&mut s, ':');
    s
}

fn join_string(base: String, name: &String) -> (r: String)
    ensures
        r@ == join(base@, name@),
{
    let mut s = base;
    push_char(&mut s, '\\');
    let ghost start = s@;
    for c in it: name.as_str().chars()
        invariant
            s@ == start + it.seq().take(it.index() as int),
    {
        push_char(&mut s, c);
    }
    proof {
        assert(s@ =~= join(base@, name@));
    }
    s
}

fn build_path_fuel(
    frn: u64,
    map: &FrnMap,
    drive: char,
    cache: &mut HashMap<u64, String>,
    Ghost(n): Ghost<nat>,
) -> (r: String)
    requires
        chain_ends(tree_view(map@), cache_view(old(cache)@), frn, n),
    ensures
        r@ == memo_path(tree_view(map@), cache_view(old(cache)@), drive, frn, n),
        cache_view(final(cache)@) == memo_cache(
            tree_view(map@),
            cache_view(old(cache)@),
            drive,
            frn,
            n,
        ),
    decreases n,
{
    let ghost t = tree_view(map@);
    let ghost c0 = cache_view(cache@);
    match cache.get(&frn) {
        Some(p) => {
            return p.clone();
        },
        None => {},
    }
    let path = match map.get(&frn) {
        Some(entry) => {
            let base = if entry.1 == frn {
                drive_root_string(drive)
            } else {
                build_path_fuel(entry.1, map, drive, cache, Ghost((n - 1) as nat))
            };
            join_string(base, &entry.0)
        },
        None => drive_root_string(drive),
    };
    let ghost c1 = cache_view(cache@);
    cache.insert(frn, path.clone());
    proof {
        assert(cache_view(cache@) =~= c1.insert(frn, path@));
    }
    path
}

/// The full path of `frn`: the cached one if `cache` holds it, else the parent's path
/// (resolved the same way), a backslash and the name; an unknown id stands for the
/// drive root `D:` and an id that is its own parent sits directly under it. Every id
/// resolved on the way gets its path cached. The parent links from `frn` must reach
/// such a stop: a cycle would recurse forever.
pub fn build_path(frn: u64, map: &FrnMap, drive: char, cache: &mut HashMap<u64, String>) -> (r:
    String)
    requires
        resolves(tree_view(map@), cache_view(old(cache)@), frn),
    ensures
        r@ == resolve_path(tree_view(map@), cache_view(old(cache)@), drive, frn),
        cache_view(final(cache)@) == resolve_cache(
            tree_view(map@),
            cache_view(old(cache)@),
            drive,
            frn,
        ),
{
    let ghost n = fuel_for(tree_view(map@), cache_view(cache@), frn);
    build_path_fuel(frn, map, drive, cache, Ghost(n))
}

proof fn lemma_transparent_n(t: Tree, c: Cache, d: char, frn: u64, n: nat)
    requires
        cache_agrees(t, c, d),
        chain_ends(t, Map::empty(), frn, n),
    ensures
        chain_ends(t, c, frn, n),
        memo_path(t, c, d, frn, n) == memo_path(t, Map::empty(), d, frn, n),
        cache_agrees(t, memo_cache(t, c, d, frn, n), d),
    decreases n,
{
    lemma_fuel_any(t, Map::empty(), d, frn, n);
    if c.contains_key(frn) {
    } else if !t.contains_key(frn) || t[frn].1 == frn {
        let c2 = memo_cache(t, c, d, frn, n);
        assert forall|k: u64| #[trigger] c2.contains_key(k) implies resolves(t, Map::empty(), k)
            && c2[k] == path_of(t, d, k) by {
            if k != frn {
                assert(c.contains_key(k));
            }
        }
    } else {
        let p = t[frn].1;
        lemma_transparent_n(t, c, d, p, (n - 1) as nat);
        let c1 = memo_cache(t, c, d, p, (n - 1) as nat);
        let c2 = memo_cache(t, c, d, frn, n);
        assert(c2 == c1.insert(frn, memo_path(t, c, d, frn, n)));
        assert forall|k: u64| #[trigger] c2.contains_key(k) implies resolves(t, Map::empty(), k)
            && c2[k] == path_of(t, d, k) by {
            if k != frn {
                assert(c1.contains_key(k));
            }
        }
    }
}

/// A cache whose every entry is that id's full path never changes an answer: resolving
/// through it gives the plain full path, and the cache it leaves still agrees with the tree.
pub proof fn lemma_cache_transparent(t: Tree, c: Cache, d: char, frn: u64)
    requires
        cache_agrees(t, c, d),
        resolves(t, Map::empty(), frn),
    ensures
        resolves(t, c, frn),
        resolve_path(t, c, d, frn) == path_of(t, d, frn),
        cache_agrees(t, resolve_cache(t, c, d, frn), d),
{
    let n = fuel_for(t, Map::empty(), frn);
    lemma_transparent_n(t, c, d, frn, n);
    lemma_fuel_any(t, c, d, frn, n);
    lemma_fuel_any(t, Map::empty(), d, frn, n);
}

/// The index key of `frn` on drive `d`: the drive letter in the high 64 bits, the id in the low.
pub open spec fn ckey_spec(d: char, frn: u64) -> int {
    (d as u32) as int * 0x1_0000_0000_0000_0000 + frn as int
}

/// Index keys of different files differ: the key determines drive and id.
pub proof fn lemma_ckey_injective(d1: char, f1: u64, d2: char, f2: u64)
    requires
        ckey_spec(d1, f1) == ckey_spec(d2, f2),
    ensures
        d1 == d2,
        f1 == f2,
{
    let a = d1 as u32 as int;
    let b = d2 as u32 as int;
    if a < b {
        assert(a * 0x1_0000_0000_0000_0000 + 0x1_0000_0000_0000_0000 <= b * 0x1_0000_0000_0000_0000) by (nonlinear_arith)
            requires
                a < b,
        ;
    } else if a > b {
        assert(b * 0x1_0000_0000_0000_0000 + 0x1_0000_0000_0000_0000 <= a * 0x1_0000_0000_0000_0000) by (nonlinear_arith)
            requires
                b < a,
        ;
    }
    assert(a == b);
    assert(d1 as u32 == d2 as u32);
}

/// Packs drive letter and file reference number into one index key.
pub fn ckey(drive: char, frn: u64) -> (r: u128)
    ensures
        r as int == ckey_spec(drive, frn),
{
    let d = drive as u32 as u128;
    let f = frn as u128;
    assert(((d << 64u128) | f) == d * 0x1_0000_0000_0000_0000 + f) by (bit_vector)
        requires
            d < 0x1_0000_0000,
            f < 0x1_0000_0000_0000_0000,
    ;
    (d << 64u128) | f
}

/// Every id of the tree resolves to a path: no parent chain runs in a cycle.
pub open spec fn tree_resolves(t: Tree) -> bool {
    forall|f: u64| #[trigger] t.contains_key(f) ==> resolves(t, Map::empty(), f)
}

/// The id reached from `frn` after `k` steps up the parent links.
pub open spec fn ancestor(t: Tree, frn: u64, k: nat) -> u64
    decreases k,
{
    if k == 0 {
        frn
    } else {
        t[ancestor(t, frn, (k - 1) as nat)].1
    }
}

proof fn lemma_ancestor_shift(t: Tree, frn: u64, k: nat)
    ensures
        ancestor(t, t[frn].1, k) == ancestor(t, frn, k + 1),
    decreases k,
{
    assert(ancestor(t, frn, 0) == frn);
    if k > 0 {
        lemma_ancestor_shift(t, frn, (k - 1) as nat);
        assert(ancestor(t, t[frn].1, k) == t[ancestor(t, t[frn].1, (k - 1) as nat)].1);
        assert(ancestor(t, frn, k + 1) == t[ancestor(t, frn, k)].1);
    } else {
        assert(ancestor(t, frn, 1) == t[ancestor(t, frn, 0)].1);
    }
}

/// A chain that does not end within `n` steps passes `n + 1` ids that do not stop it.
proof fn lemma_no_end_no_stop(t: Tree, c: Cache, frn: u64, n: nat)
    requires
        !chain_ends(t, c, frn, n),
    ensures
        forall|k: nat| k <= n ==> !stops(t, c, #[trigger] ancestor(t, frn, k)),
    decreases n,
{
    if n > 0 {
        lemma_no_end_no_stop(t, c, t[frn].1, (n - 1) as nat);
        assert forall|k: nat| k <= n implies !stops(t, c, #[trigger] ancestor(t, frn, k)) by {
            if k > 0 {
                lemma_ancestor_shift(t, frn, (k - 1) as nat);
            }
        }
    }
}

/// A chain none of whose ids stops it never ends.
proof fn lemma_never_stops(t: Tree, c: Cache, frn: u64, n: nat)
    requires
        forall|k: nat| !stops(t, c, #[trigger] ancestor(t, frn, k)),
    ensures
        !chain_ends(t, c, frn, n),
    decreases n,
{
    assert(ancestor(t, frn, 0) == frn);
    if n > 0 {
        assert forall|k: nat| !stops(t, c, #[trigger] ancestor(t, t[frn].1, k)) by {
            lemma_ancestor_shift(t, frn, k);
            assert(!stops(t, c, ancestor(t, frn, k + 1)));
        }
        lemma_never_stops(t, c, t[frn].1, (n - 1) as nat);
    }
}

/// Once an id comes back, the chain repeats itself.
proof fn lemma_ancestor_period(t: Tree, frn: u64, i: nat, j: nat, m: nat)
    requires
        ancestor(t, frn, i) == ancestor(t, frn, j),
    ensures
        ancestor(t, frn, i + m) == ancestor(t, frn, j + m),
    decreases m,
{
    if m > 0 {
        lemma_ancestor_period(t, frn, i, j, (m - 1) as nat);
        assert(ancestor(t, frn, i + m) == t[ancestor(t, frn, (i + m - 1) as nat)].1);
        assert(ancestor(t, frn, j + m) == t[ancestor(t, frn, (j + m - 1) as nat)].1);
    }
}

/// With a repeat at `i < j`, every id of the chain is one of its first `j`.
proof fn lemma_ancestor_within(t: Tree, frn: u64, i: nat, j: nat, k: nat)
    requires
        i < j,
        ancestor(t, frn, i) == ancestor(t, frn, j),
    ensures
        exists|k2: nat| k2 < j && ancestor(t, frn, k2) == ancestor(t, frn, k),
    decreases k,
{
    if k < j {
        assert(ancestor(t, frn, k) == ancestor(t, frn, k));
    } else {
        let m = (k - j) as nat;
        lemma_ancestor_period(t, frn, i, j, m);
        lemma_ancestor_within(t, frn, i, j, i + m);
    }
}

/// Resolution needs at most as many steps as the tree has ids: a chain that has not
/// ended by then runs in a cycle and never ends.
pub proof fn lemma_bounded_resolution(t: Tree, c: Cache, frn: u64)
    requires
        t.dom().finite(),
    ensures
        chain_ends(t, c, frn, t.dom().len()) == resolves(t, c, frn),
{
    let n = t.dom().len();
    if !chain_ends(t, c, frn, n) {
        lemma_no_end_no_stop(t, c, frn, n);
        let w = Seq::new(n + 1, |k: int| ancestor(t, frn, k as nat));
        assert(w.to_set().subset_of(t.dom())) by {
            assert forall|x: u64| w.to_set().contains(x) implies t.dom().contains(x) by {
                let k = choose|k: int| 0 <= k < w.len() && w[k] == x;
                assert(!stops(t, c, ancestor(t, frn, k as nat)));
            }
        }
        vstd::set_lib::lemma_len_subset(w.to_set(), t.dom());
        if w.no_duplicates() {
            w.unique_seq_to_set();
            assert(false);
        }
        let (i, j) = choose|i: int, j: int| 0 <= i < w.len() && 0 <= j < w.len() && i != j && w[i] == w[j];
        let (a, b) = if i < j { (i as nat, j as nat) } else { (j as nat, i as nat) };
        assert(ancestor(t, frn, a) == ancestor(t, frn, b));
        assert forall|k: nat| !stops(t, c, #[trigger] ancestor(t, frn, k)) by {
            lemma_ancestor_within(t, frn, a, b, k);
            let k2 = choose|k2: nat| k2 < b && ancestor(t, frn, k2) == ancestor(t, frn, k);
            assert(k2 <= n);
        }
        if resolves(t, c, frn) {
            let m = choose|m: nat| chain_ends(t, c, frn, m);
            lemma_never_stops(t, c, frn, m);
        }
    }
}

/// Whether following parent links from `frn` reaches a stop within `n` steps.
fn chain_ends_exec(map: &FrnMap, cache: &HashMap<u64, String>, frn: u64, n: usize) -> (r: bool)
    ensures
        r == chain_ends(tree_view(map@), cache_view(cache@), frn, n as nat),
{
    let ghost t = tree_view(map@);
    let ghost c = cache_view(cache@);
    let mut cur = frn;
    let mut m = n;
    loop
        invariant
            t == tree_view(map@),
            c == cache_view(cache@),
            chain_ends(t, c, frn, n as nat) == chain_ends(t, c, cur, m as nat),
        decreases m,
    {
        if cache.contains_key(&cur) {
            return true;
        }
        match map.get(&cur) {
            None => {
                return true;
            },
            Some(entry) => {
                if entry.1 == cur {
                    return true;
                }
                if m == 0 {
                    return false;
                }
                cur = entry.1;
                m = m - 1;
            },
        }
    }
}

/// Whether resolving `frn` against `cache` terminates (the parent links from it reach a
/// cached, unknown or self-parented id), decided by walking at most as many steps as
/// the tree has ids.
pub fn resolves_exec(map: &FrnMap, cache: &HashMap<u64, String>, frn: u64) -> (r: bool)
    ensures
        r == resolves(tree_view(map@), cache_view(cache@), frn),
{
    proof {
        vstd::std_specs::hash::axiom_hashmap_view_finite_dom(*map);
        assert(tree_view(map@).dom() =~= map@.dom());
        lemma_bounded_resolution(tree_view(map@), cache_view(cache@), frn);
    }
    chain_ends_exec(map, cache, frn, map.len())
}

/// Whether every id of the tree resolves: no parent chain runs in a cycle. This is what
/// [`index_tree`] and [`build_path`] need.
pub fn tree_resolves_exec(map: &FrnMap) -> (r: bool)
    ensures
        r == tree_resolves(tree_view(map@)),
{
    let ghost t = tree_view(map@);
    let empty: HashMap<u64, String> = HashMap::new();
    proof {
        assert(cache_view(empty@) =~= Map::<u64, Seq<char>>::empty());
    }
    let ids = tree_ids(map);
    let mut i: usize = 0;
    while i < ids.len()
        invariant
            t == tree_view(map@),
            cache_view(empty@) == Map::<u64, Seq<char>>::empty(),
            ids@.to_set() == map@.dom(),
            i <= ids.len(),
            forall|j: int| 0 <= j < i ==> resolves(t, Map::empty(), #[trigger] ids@[j]),
        decreases ids.len() - i,
    {
        if !resolves_exec(map, &empty, ids[i]) {
            proof {
                assert(ids@.to_set().contains(ids@[i as int]));
                assert(t.contains_key(ids@[i as int]));
            }
            return false;
        }
        i = i + 1;
    }
    proof {
        assert forall|f: u64| #[trigger] t.contains_key(f) implies resolves(t, Map::empty(), f) by {
            assert(map@.dom().contains(f));
            assert(ids@.to_set().contains(f));
            let j = choose|j: int| 0 <= j < ids@.len() && ids@[j] == f;
        }
    }
    true
}

/// The index after entering every id of the tree: each id's key maps to its full path,
/// and every key that belongs to no id of the tree is as it was.
pub open spec fn indexed(t: Tree, d: char, before: Map<u128, Seq<char>>, after: Map<u128, Seq<char>>) -> bool {
    &&& forall|f: u64| #[trigger] t.contains_key(f) ==> after.contains_key(ckey_spec(d, f) as u128)
        && after[ckey_spec(d, f) as u128] == path_of(t, d, f)
    &&& forall|k: u128| (forall|f: u64| t.contains_key(f) ==> k != ckey_spec(d, f))
        ==> (#[trigger] after.contains_key(k) == before.contains_key(k)) && (after.contains_key(k) ==> after[k] == before[k])
}

pub open spec fn index_view(m: Map<u128, String>) -> Map<u128, Seq<char>> {
    m.map_values(|s: String| s@)
}

/// The ids of the tree, each once.
fn tree_ids(map: &FrnMap) -> (r: Vec<u64>)
    ensures
        r@.to_set() == map@.dom(),
{
    let mut r: Vec<u64> = Vec::new();
    for f in it: map.keys()
        invariant
            r@ == it.seq().unref().take(it.index()),
            it.seq().unref().to_set() == map@.dom(),
            it.index() == it.seq().len() ==> r@.to_set() == map@.dom(),
    {
        r.push(*f);
        proof {
            assert(it.seq().unref().take(it.index() + 1) =~= r@);
            assert(it.index() + 1 == it.seq().len() ==> r@ =~= it.seq().unref());
        }
    }
    r
}

/// Enters the full path of every id of the tree into the search index.
pub fn index_tree(map: &FrnMap, drive: char, index: &mut HashMap<u128, String>)
    requires
        tree_resolves(tree_view(map@)),
    ensures
        indexed(tree_view(map@), drive, index_view(old(index)@), index_view(final(index)@)),
{
    let ghost t = tree_view(map@);
    let ghost i0 = index_view(index@);
    let mut cache: HashMap<u64, String> = HashMap::new();
    proof {
        assert(cache_view(cache@) =~= Map::<u64, Seq<char>>::empty());
    }
    let ids = tree_ids(map);
    let mut i: usize = 0;
    while i < ids.len()
        invariant
            t == tree_view(map@),
            tree_resolves(t),
            ids@.to_set() == map@.dom(),
            i <= ids.len(),
            cache_agrees(t, cache_view(cache@), drive),
            forall|j: int| 0 <= j < i ==> {
                let g = #[trigger] ids@[j];
                &&& index_view(index@).contains_key(ckey_spec(drive, g) as u128)
                &&& index_view(index@)[ckey_spec(drive, g) as u128] == path_of(t, drive, g)
            },
            forall|k: u128| (forall|j: int| 0 <= j < i ==> k != ckey_spec(drive, #[trigger] ids@[j]))
                ==> (#[trigger] index_view(index@).contains_key(k) == i0.contains_key(k))
                && (index_view(index@).contains_key(k) ==> index_view(index@)[k] == i0[k]),
        decreases ids.len() - i,
    {
        let frn = ids[i];
        proof {
            assert(ids@.to_set().contains(frn));
            assert(t.contains_key(frn));
            lemma_cache_transparent(t, cache_view(cache@), drive, frn);
        }
        let p = build_path(frn, map, drive, &mut cache);
        let key = ckey(drive, frn);
        let ghost before = index_view(index@);
        index.insert(key, p);
        proof {
            assert(index_view(index@) =~= before.insert(key, p@));
            assert forall|j: int| 0 <= j < i + 1 implies {
                let g = #[trigger] ids@[j];
                &&& index_view(index@).contains_key(ckey_spec(drive, g) as u128)
                &&& index_view(index@)[ckey_spec(drive, g) as u128] == path_of(t, drive, g)
            } by {
                if j < i {
                    let g = ids@[j];
                    if ckey_spec(drive, g) as u128 == key {
                        assert(g == frn);
                    }
                }
            }
        }
        i = i + 1;
    }
    proof {
        assert forall|f: u64| #[trigger] t.contains_key(f) implies index_view(index@).contains_key(ckey_spec(drive, f) as u128)
            && index_view(index@)[ckey_spec(drive, f) as u128] == path_of(t, drive, f) by {
            assert(map@.dom().contains(f));
            assert(ids@.to_set().contains(f));
            let j = choose|j: int| 0 <= j < ids@.len() && ids@[j] == f;
            assert(ids@[j] == f);
        }
        assert forall|k: u128| (forall|f: u64| t.contains_key(f) ==> k != ckey_spec(drive, f))
            implies (#[trigger] index_view(index@).contains_key(k) == i0.contains_key(k))
            && (index_view(index@).contains_key(k) ==> index_view(index@)[k] == i0[k]) by {
            assert forall|j: int| 0 <= j < i implies k != ckey_spec(drive, #[trigger] ids@[j]) by {
                assert(ids@.to_set().contains(ids@[j]));
                assert(t.contains_key(ids@[j]));
            }
        }
    }
}

} // verus!
