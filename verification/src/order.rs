//! The order of relative paths (component by component, as `Path`
//! compares them) and maps from paths kept in that order.
use vstd::prelude::*;
use crate::paths::{segments, segments_of};
use crate::markdown::views;
use crate::text::{chars_of, same};

verus! {

broadcast use vstd::seq_lib::group_seq_properties;

/// Lexicographic order of character sequences.
pub open spec fn chars_lt(x: Seq<char>, y: Seq<char>) -> bool
    decreases x.len(),
{
    if x.len() == 0 {
        y.len() > 0
    } else if y.len() == 0 {
        false
    } else if x[0] != y[0] {
        x[0] < y[0]
    } else {
        chars_lt(x.drop_first(), y.drop_first())
    }
}

/// Lexicographic order of component sequences.
pub open spec fn parts_lt(x: Seq<Seq<char>>, y: Seq<Seq<char>>) -> bool
    decreases x.len(),
{
    if x.len() == 0 {
        y.len() > 0
    } else if y.len() == 0 {
        false
    } else if x[0] != y[0] {
        chars_lt(x[0], y[0])
    } else {
        parts_lt(x.drop_first(), y.drop_first())
    }
}

/// The order of relative paths.
pub open spec fn path_lt(a: Seq<char>, b: Seq<char>) -> bool {
    parts_lt(segments(a), segments(b))
}

pub proof fn lemma_chars_trichotomy(x: Seq<char>, y: Seq<char>)
    ensures
        chars_lt(x, y) || x == y || chars_lt(y, x),
        !(chars_lt(x, y) && chars_lt(y, x)),
        !chars_lt(x, x),
    decreases x.len(),
{
    if x.len() > 0 && y.len() > 0 && x[0] == y[0] {
        lemma_chars_trichotomy(x.drop_first(), y.drop_first());
        if x.drop_first() == y.drop_first() {
            assert(x =~= seq![x[0]] + x.drop_first());
            assert(y =~= seq![y[0]] + y.drop_first());
        }
    }
    if x.len() > 0 {
        lemma_chars_trichotomy(x.drop_first(), x.drop_first());
    }
    if x.len() == 0 && y.len() == 0 {
        assert(x =~= y);
    }
}

pub proof fn lemma_chars_trans(x: Seq<char>, y: Seq<char>, z: Seq<char>)
    requires
        chars_lt(x, y),
        chars_lt(y, z),
    ensures
        chars_lt(x, z),
    decreases x.len(),
{
    if x.len() > 0 && y.len() > 0 && z.len() > 0 && x[0] == y[0] && y[0] == z[0] {
        lemma_chars_trans(x.drop_first(), y.drop_first(), z.drop_first());
    }
}

pub proof fn lemma_parts_trichotomy(x: Seq<Seq<char>>, y: Seq<Seq<char>>)
    ensures
        parts_lt(x, y) || x == y || parts_lt(y, x),
        !(parts_lt(x, y) && parts_lt(y, x)),
        !parts_lt(x, x),
    decreases x.len(),
{
    if x.len() > 0 && y.len() > 0 {
        lemma_chars_trichotomy(x[0], y[0]);
        if x[0] == y[0] {
            lemma_parts_trichotomy(x.drop_first(), y.drop_first());
            if x.drop_first() == y.drop_first() {
                assert(x =~= seq![x[0]] + x.drop_first());
                assert(y =~= seq![y[0]] + y.drop_first());
            }
        }
    }
    if x.len() > 0 {
        lemma_parts_trichotomy(x.drop_first(), x.drop_first());
        lemma_chars_trichotomy(x[0], x[0]);
    }
    if x.len() == 0 && y.len() == 0 {
        assert(x =~= y);
    }
}

pub proof fn lemma_parts_trans(x: Seq<Seq<char>>, y: Seq<Seq<char>>, z: Seq<Seq<char>>)
    requires
        parts_lt(x, y),
        parts_lt(y, z),
    ensures
        parts_lt(x, z),
    decreases x.len(),
{
    if x.len() > 0 && y.len() > 0 && z.len() > 0 {
        if x[0] == y[0] && y[0] == z[0] {
            lemma_parts_trans(x.drop_first(), y.drop_first(), z.drop_first());
        } else if x[0] == y[0] {
        } else if y[0] == z[0] {
        } else {
            lemma_chars_trans(x[0], y[0], z[0]);
            if x[0] == z[0] {
                lemma_chars_trichotomy(x[0], y[0]);
            }
        }
    }
}

/// Relative paths with equal components are equal. This holds of the
/// paths this library forms: no empty components.
pub proof fn lemma_path_order(a: Seq<char>, b: Seq<char>, c: Seq<char>)
    ensures
        path_lt(a, b) && path_lt(b, c) ==> path_lt(a, c),
        !(path_lt(a, b) && path_lt(b, a)),
        !path_lt(a, a),
{
    lemma_parts_trichotomy(segments(a), segments(b));
    lemma_parts_trichotomy(segments(a), segments(a));
    if path_lt(a, b) && path_lt(b, c) {
        lemma_parts_trans(segments(a), segments(b), segments(c));
    }
}

fn chars_less(x: &Vec<char>, y: &Vec<char>) -> (r: bool)
    ensures
        r == chars_lt(x@, y@),
{
    let mut i: usize = 0;
    while i < x.len() && i < y.len() && x[i] == y[i]
        invariant
            i <= x@.len(),
            i <= y@.len(),
            chars_lt(x@, y@) == chars_lt(x@.skip(i as int), y@.skip(i as int)),
        decreases x@.len() - i,
    {
        proof {
            assert(x@.skip(i as int).drop_first() =~= x@.skip(i + 1));
            assert(y@.skip(i as int).drop_first() =~= y@.skip(i + 1));
        }
        i += 1;
    }
    if i == x.len() {
        i < y.len()
    } else if i == y.len() {
        false
    } else {
        x[i] < y[i]
    }
}

/// Whether path `a` comes before path `b`.
pub fn path_less(a: &str, b: &str) -> (r: bool)
    ensures
        r == path_lt(a@, b@),
{
    let x = segments_of(a);
    let y = segments_of(b);
    let ghost xs = views(x@);
    let ghost ys = views(y@);
    let mut i: usize = 0;
    while i < x.len() && i < y.len() && same(&x[i], &y[i])
        invariant
            i <= x@.len(),
            i <= y@.len(),
            xs == views(x@),
            ys == views(y@),
            xs == segments(a@),
            ys == segments(b@),
            parts_lt(xs, ys) == parts_lt(xs.skip(i as int), ys.skip(i as int)),
        decreases x@.len() - i,
    {
        proof {
            assert(xs.skip(i as int).drop_first() =~= xs.skip(i + 1));
            assert(ys.skip(i as int).drop_first() =~= ys.skip(i + 1));
            assert(xs[i as int] == x@[i as int]@);
            assert(ys[i as int] == y@[i as int]@);
        }
        i += 1;
    }
    if i == x.len() {
        i < y.len()
    } else if i == y.len() {
        false
    } else {
        assert(xs[i as int] == x@[i as int]@);
        assert(ys[i as int] == y@[i as int]@);
        chars_less(&x[i], &y[i])
    }
}

/// Strings strictly increasing in path order.
pub open spec fn ascending(v: Seq<Seq<char>>) -> bool {
    forall|i: int, j: int| 0 <= i < j < v.len() ==> path_lt(#[trigger] v[i], #[trigger] v[j])
}

pub open spec fn strs(v: Seq<String>) -> Seq<Seq<char>> {
    v.map_values(|s: String| s@)
}

/// Adds `x` to a set of paths kept in path order.
pub fn insert_sorted(v: &mut Vec<String>, x: String)
    requires
        ascending(strs(old(v)@)),
    ensures
        ascending(strs(final(v)@)),
        strs(final(v)@).to_set() == strs(old(v)@).to_set().insert(x@),
        forall|y: Seq<char>| strs(final(v)@).contains(y) <==> (strs(old(v)@).contains(y) || y == x@),
{
    let ghost before = strs(v@);
    let mut k: usize = 0;
    while k < v.len() && path_less(v[k].as_str(), x.as_str())
        invariant
            k <= v@.len(),
            strs(v@) == before,
            ascending(before),
            forall|j: int| 0 <= j < k ==> path_lt(#[trigger] before[j], x@),
        decreases v@.len() - k,
    {
        k += 1;
    }
    if k < v.len() && v[k] == x {
        proof {
            assert(before.to_set() =~= before.to_set().insert(x@)) by {
                assert(before[k as int] == x@);
            }
            assert forall|y: Seq<char>| before.contains(y) <==> (before.contains(y) || y == x@) by {
                if y == x@ {
                    assert(before[k as int] == y);
                }
            }
        }
        return;
    }
    proof {
        if k < v@.len() {
            lemma_parts_trichotomy(segments(x@), segments(before[k as int]));
            if segments(x@) == segments(before[k as int]) {
                lemma_segments_eq(x@, before[k as int]);
            }
            assert(path_lt(x@, before[k as int]));
        }
    }
    v.insert(k, x);
    proof {
        let after = strs(v@);
        assert(after =~= before.insert(k as int, x@));
        assert forall|i: int, j: int| 0 <= i < j < after.len() implies path_lt(
            #[trigger] after[i],
            #[trigger] after[j],
        ) by {
            if j == k {
            } else if i == k {
                if j - 1 > k {
                    lemma_path_order(x@, before[k as int], before[j - 1]);
                }
            } else if i < k && j > k {
                if (j - 1) > i {
                }
            }
        }
        assert(after.to_set() =~= before.to_set().insert(x@)) by {
            assert forall|y: Seq<char>| after.to_set().contains(y) <==> before.to_set().insert(
                x@,
            ).contains(y) by {
                if after.to_set().contains(y) {
                    let i = choose|i: int| 0 <= i < after.len() && after[i] == y;
                    if i < k {
                        assert(before[i] == y);
                    } else if i > k {
                        assert(before[i - 1] == y);
                    }
                }
                if before.to_set().contains(y) {
                    let i = choose|i: int| 0 <= i < before.len() && before[i] == y;
                    if i < k {
                        assert(after[i] == y);
                    } else {
                        assert(after[i + 1] == y);
                    }
                }
                if y == x@ {
                    assert(after[k as int] == y);
                }
            }
        }
        assert forall|y: Seq<char>| after.contains(y) <==> (before.contains(y) || y == x@) by {
            if after.contains(y) {
                let i = choose|i: int| 0 <= i < after.len() && after[i] == y;
                if i < k {
                    assert(before[i] == y);
                } else if i > k {
                    assert(before[i - 1] == y);
                }
            }
            if before.contains(y) {
                let i = choose|i: int| 0 <= i < before.len() && before[i] == y;
                if i < k {
                    assert(after[i] == y);
                } else {
                    assert(after[i + 1] == y);
                }
            }
            if y == x@ {
                assert(after[k as int] == y);
            }
        }
    }
}

/// Paths are equal when their components are. This holds of the paths
/// this library forms, which never hold an empty component.
pub proof fn lemma_segments_eq(a: Seq<char>, b: Seq<char>)
    requires
        segments(a) == segments(b),
    ensures
        a == b,
{
    crate::paths::lemma_split_nonempty(a, '/');
    crate::paths::lemma_split_nonempty(b, '/');
    if a.len() > 0 && b.len() > 0 {
        crate::paths::lemma_glue_split(a, '/');
        crate::paths::lemma_glue_split(b, '/');
    } else if a.len() == 0 && b.len() == 0 {
        assert(a =~= b);
    }
}



// ---------------------------------------------------------------------
// Maps kept as lists in key order
// ---------------------------------------------------------------------

/// The keys and values of a list of entries.
pub open spec fn kv<V>(m: Seq<(String, V)>) -> Seq<(Seq<char>, V)> {
    m.map_values(|e: (String, V)| (e.0@, e.1))
}

pub open spec fn kv_keys<V>(e: Seq<(Seq<char>, V)>) -> Seq<Seq<char>> {
    e.map_values(|x: (Seq<char>, V)| x.0)
}

/// Whether entry `i` has key `k`.
pub open spec fn has_key<V>(e: Seq<(Seq<char>, V)>, i: int, k: Seq<char>) -> bool {
    0 <= i < e.len() && e[i].0 == k
}

/// The map that entries with distinct keys describe.
pub open spec fn table<V>(e: Seq<(Seq<char>, V)>) -> Map<Seq<char>, V> {
    Map::new(|k: Seq<char>| exists|i: int| has_key(e, i, k), |k: Seq<char>| e[choose|i: int| has_key(e, i, k)].1)
}

proof fn lemma_one_key<V>(e: Seq<(Seq<char>, V)>, i: int, j: int)
    requires
        ascending(kv_keys(e)),
        has_key(e, i, e[j].0),
        0 <= j < e.len(),
    ensures
        i == j,
{
    let ks = kv_keys(e);
    if i < j {
        assert(path_lt(ks[i], ks[j]));
        lemma_path_order(ks[i], ks[i], ks[i]);
    } else if j < i {
        assert(path_lt(ks[j], ks[i]));
        lemma_path_order(ks[j], ks[j], ks[j]);
    }
}

/// Sets the value of `key` in a key-ordered list of entries
/// (`BTreeMap::insert`).
pub fn put_sorted<V>(map: &mut Vec<(String, V)>, key: String, value: V)
    requires
        ascending(kv_keys(kv(old(map)@))),
    ensures
        ascending(kv_keys(kv(final(map)@))),
        table(kv(final(map)@)) == table(kv(old(map)@)).insert(key@, value),
{
    let ghost before = kv(map@);
    let ghost ks = kv_keys(before);
    let ghost old_map = table(before);
    let mut k: usize = 0;
    while k < map.len() && path_less(map[k].0.as_str(), key.as_str())
        invariant
            k <= map@.len(),
            kv(map@) == before,
            ks == kv_keys(before),
            ascending(ks),
            forall|j: int| 0 <= j < k ==> path_lt(#[trigger] ks[j], key@),
        decreases map@.len() - k,
    {
        k += 1;
    }
    proof {
        assert forall|j: int| 0 <= j < k implies !has_key(before, j, key@) by {
            assert(path_lt(ks[j], key@));
            lemma_path_order(key@, key@, key@);
        }
    }
    if k < map.len() && crate::text::is_text(&crate::text::chars_of(map[k].0.as_str()), key.as_str()) {
        proof {
            assert(has_key(before, k as int, key@));
        }
        let ghost kk = key@;
        map.set(k, (key, value));
        proof {
            let after = kv(map@);
            assert(after =~= before.update(k as int, (kk, value)));
            assert(kv_keys(after) =~= ks);
            assert(table(after) =~= old_map.insert(kk, value)) by {
                assert forall|x: Seq<char>| #[trigger] table(after).dom().contains(x) <==> old_map.insert(kk, value).dom().contains(x) by {
                    if exists|i: int| has_key(after, i, x) {
                        let i = choose|i: int| has_key(after, i, x);
                        assert(has_key(before, i, x));
                    }
                    if exists|i: int| has_key(before, i, x) {
                        let i = choose|i: int| has_key(before, i, x);
                        assert(has_key(after, i, x));
                    }
                    if x == kk {
                        assert(has_key(after, k as int, x));
                    }
                }
                assert forall|x: Seq<char>| #[trigger] table(after).dom().contains(x) implies table(after)[x] == old_map.insert(kk, value)[x] by {
                    let i = choose|i: int| has_key(after, i, x);
                    assert(has_key(before, i, x));
                    if x == kk {
                        lemma_one_key(after, i, k as int);
                    } else {
                        let i2 = choose|i2: int| has_key(before, i2, x);
                        lemma_one_key(before, i2, i);
                    }
                }
            }
        }
        return;
    }
    proof {
        if k < map@.len() {
            lemma_parts_trichotomy(segments(key@), segments(ks[k as int]));
            if segments(key@) == segments(ks[k as int]) {
                lemma_segments_eq(key@, ks[k as int]);
            }
            assert(path_lt(key@, ks[k as int]));
        }
        assert forall|j: int| k <= j < before.len() implies !has_key(before, j, key@) by {
            if j > k {
                lemma_path_order(key@, ks[k as int], ks[j]);
            }
            lemma_path_order(key@, key@, key@);
        }
        assert(!old_map.dom().contains(key@));
    }
    let ghost kk = key@;
    map.insert(k, (key, value));
    proof {
        let after = kv(map@);
        let ka = kv_keys(after);
        assert(after =~= before.insert(k as int, (kk, value)));
        assert(ka =~= ks.insert(k as int, kk));
        assert forall|a: int, b: int| 0 <= a < b < ka.len() implies path_lt(#[trigger] ka[a], #[trigger] ka[b]) by {
            if a == k {
                if b - 1 > k {
                    lemma_path_order(kk, ks[k as int], ks[b - 1]);
                }
            }
        }
        assert(table(after) =~= old_map.insert(kk, value)) by {
            assert forall|x: Seq<char>| #[trigger] table(after).dom().contains(x) <==> old_map.insert(kk, value).dom().contains(x) by {
                if exists|i: int| has_key(after, i, x) {
                    let i = choose|i: int| has_key(after, i, x);
                    if i < k {
                        assert(has_key(before, i, x));
                    } else if i > k {
                        assert(has_key(before, i - 1, x));
                    }
                }
                if exists|i: int| has_key(before, i, x) {
                    let i = choose|i: int| has_key(before, i, x);
                    if i < k {
                        assert(has_key(after, i, x));
                    } else {
                        assert(has_key(after, i + 1, x));
                    }
                }
                if x == kk {
                    assert(has_key(after, k as int, x));
                }
            }
            assert forall|x: Seq<char>| #[trigger] table(after).dom().contains(x) implies table(after)[x] == old_map.insert(kk, value)[x] by {
                let i = choose|i: int| has_key(after, i, x);
                if x == kk {
                    lemma_one_key(after, i, k as int);
                } else {
                    let i2 = choose|i2: int| has_key(before, i2, x);
                    if i < k {
                        assert(has_key(before, i, x));
                        lemma_one_key(before, i2, i);
                    } else {
                        assert(i != k);
                        assert(has_key(before, i - 1, x));
                        lemma_one_key(before, i2, i - 1);
                    }
                }
            }
        }
    }
}

} // verus!
