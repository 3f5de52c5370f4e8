//! Reading what Git reports: the paths changed against a base commit, and
//! the checks on a file read from the base.
use vstd::prelude::*;
use vstd::utf8::{decode_utf8, valid_utf8};
use crate::change::MAX_FILE_BYTES;
use crate::contract::opt_view;
use crate::discovery::{Changes, entry_views, keys_of};
use crate::markdown::views;
use crate::order::{ascending, lemma_path_order, lemma_parts_trichotomy, lemma_segments_eq, path_less, path_lt};
use crate::parse::{join_range, joined_all};
use crate::paths::{join, joined, segments, segments_of, starts_with, under};
use crate::text::{chars_of, slice_of, string_of, text, text_with, trim, trimmed};

verus! {

broadcast use vstd::seq_lib::group_seq_properties;

// ---------------------------------------------------------------------
// Maps from paths, kept in path order
// ---------------------------------------------------------------------

/// Whether entry `i` has key `k`.
pub open spec fn keyed(e: Seq<(Seq<char>, Option<Seq<char>>)>, i: int, k: Seq<char>) -> bool {
    0 <= i < e.len() && e[i].0 == k
}

/// The map that entries with distinct keys describe.
pub open spec fn as_map(e: Seq<(Seq<char>, Option<Seq<char>>)>) -> Map<Seq<char>, Option<Seq<char>>> {
    Map::new(
        |k: Seq<char>| exists|i: int| keyed(e, i, k),
        |k: Seq<char>| e[choose|i: int| keyed(e, i, k)].1,
    )
}

proof fn lemma_unique_key(e: Seq<(Seq<char>, Option<Seq<char>>)>, i: int, j: int)
    requires
        ascending(keys_of(e)),
        keyed(e, i, e[j].0),
        0 <= j < e.len(),
    ensures
        i == j,
{
    let ks = keys_of(e);
    if i < j {
        assert(path_lt(ks[i], ks[j]));
        lemma_path_order(ks[i], ks[i], ks[i]);
    } else if j < i {
        assert(path_lt(ks[j], ks[i]));
        lemma_path_order(ks[j], ks[j], ks[j]);
    }
}

/// Records `value` for `key` in a path-ordered map; with `keep`, a value
/// already recorded stays (`entry(key).or_insert(value)`).
pub fn put(map: &mut Vec<(String, Option<String>)>, key: String, value: Option<String>, keep: bool)
    requires
        ascending(keys_of(entry_views(old(map)@))),
    ensures
        ascending(keys_of(entry_views(final(map)@))),
        as_map(entry_views(final(map)@)) == if keep && as_map(entry_views(old(map)@)).dom().contains(
            key@,
        ) {
            as_map(entry_views(old(map)@))
        } else {
            as_map(entry_views(old(map)@)).insert(key@, opt_view(value))
        },
{
    let ghost before = entry_views(map@);
    let ghost ks = keys_of(before);
    let mut k: usize = 0;
    while k < map.len() && path_less(map[k].0.as_str(), key.as_str())
        invariant
            k <= map@.len(),
            entry_views(map@) == before,
            ks == keys_of(before),
            ascending(ks),
            forall|j: int| 0 <= j < k ==> path_lt(#[trigger] ks[j], key@),
        decreases map@.len() - k,
    {
        k += 1;
    }
    proof {
        assert forall|j: int| 0 <= j < k implies !keyed(before, j, key@) by {
            assert(path_lt(ks[j], key@));
            lemma_path_order(key@, key@, key@);
        }
    }
    if k < map.len() && map[k].0 == key {
        proof {
            assert(keyed(before, k as int, key@));
        }
        if keep {
            return;
        }
        let ghost old_map = as_map(before);
        let entry = (key, value);
        map.set(k, entry);
        proof {
            let after = entry_views(map@);
            assert(after =~= before.update(k as int, (key@, opt_view(value))));
            assert(keys_of(after) =~= ks);
            assert(as_map(after) =~= old_map.insert(key@, opt_view(value))) by {
                assert forall|x: Seq<char>| #[trigger] as_map(after).dom().contains(x) <==> old_map.insert(key@, opt_view(value)).dom().contains(x) by {
                    if exists|i: int| keyed(after, i, x) {
                        let i = choose|i: int| keyed(after, i, x);
                        assert(keyed(before, i, x));
                    }
                    if exists|i: int| keyed(before, i, x) {
                        let i = choose|i: int| keyed(before, i, x);
                        assert(keyed(after, i, x));
                    }
                    if x == key@ {
                        assert(keyed(after, k as int, x));
                    }
                }
                assert forall|x: Seq<char>| #[trigger] as_map(after).dom().contains(x) implies as_map(after)[x] == old_map.insert(key@, opt_view(value))[x] by {
                    let i = choose|i: int| keyed(after, i, x);
                    assert(keyed(before, i, x));
                    if x == key@ {
                        lemma_unique_key(after, i, k as int);
                    } else {
                        let i2 = choose|i2: int| keyed(before, i2, x);
                        lemma_unique_key(before, i2, i);
                    }
                }
            }
        }
        return;
    }
    proof {
        if k < map@.len() {
            lemma_parts_trichotomy(segments(key@), segments(ks[k as int]));
            if segments(key@) == segments(ks[k as int]) {
                lemma_segments_eq(key@, ks[k as int]);
            }
            assert(path_lt(key@, ks[k as int]));
        }
        assert forall|j: int| k <= j < before.len() implies !keyed(before, j, key@) by {
            if j > k {
                lemma_path_order(key@, ks[k as int], ks[j]);
            }
            lemma_path_order(key@, key@, key@);
        }
        assert(!as_map(before).dom().contains(key@));
    }
    let ghost old_map = as_map(before);
    map.insert(k, (key, value));
    proof {
        let after = entry_views(map@);
        let ka = keys_of(after);
        assert(after =~= before.insert(k as int, (key@, opt_view(value))));
        assert(ka =~= ks.insert(k as int, key@));
        assert forall|a: int, b: int| 0 <= a < b < ka.len() implies path_lt(#[trigger] ka[a], #[trigger] ka[b]) by {
            if a == k {
                if b - 1 > k {
                    lemma_path_order(key@, ks[k as int], ks[b - 1]);
                }
            }
        }
        assert(as_map(after) =~= old_map.insert(key@, opt_view(value))) by {
            assert forall|x: Seq<char>| #[trigger] as_map(after).dom().contains(x) <==> old_map.insert(key@, opt_view(value)).dom().contains(x) by {
                if exists|i: int| keyed(after, i, x) {
                    let i = choose|i: int| keyed(after, i, x);
                    if i < k {
                        assert(keyed(before, i, x));
                    } else if i > k {
                        assert(keyed(before, i - 1, x));
                    }
                }
                if exists|i: int| keyed(before, i, x) {
                    let i = choose|i: int| keyed(before, i, x);
                    if i < k {
                        assert(keyed(after, i, x));
                    } else {
                        assert(keyed(after, i + 1, x));
                    }
                }
                if x == key@ {
                    assert(keyed(after, k as int, x));
                }
            }
            assert forall|x: Seq<char>| #[trigger] as_map(after).dom().contains(x) implies as_map(after)[x] == old_map.insert(key@, opt_view(value))[x] by {
                let i = choose|i: int| keyed(after, i, x);
                if x == key@ {
                    lemma_unique_key(after, i, k as int);
                } else {
                    let i2 = choose|i2: int| keyed(before, i2, x);
                    if i < k {
                        assert(keyed(before, i, x));
                        lemma_unique_key(before, i2, i);
                    } else {
                        assert(i != k);
                        assert(keyed(before, i - 1, x));
                        lemma_unique_key(before, i2, i - 1);
                    }
                }
            }
        }
    }
}


// ---------------------------------------------------------------------
// NUL-separated output
// ---------------------------------------------------------------------

/// `b.split(|x| *x == 0)`: the runs between NUL bytes (one empty run for
/// empty output).
pub open spec fn split_nul(b: Seq<u8>) -> Seq<Seq<u8>>
    decreases b.len(),
{
    if b.len() == 0 {
        seq![Seq::<u8>::empty()]
    } else if b.last() == 0 {
        split_nul(b.drop_last()).push(Seq::<u8>::empty())
    } else {
        let r = split_nul(b.drop_last());
        r.update(r.len() - 1, r.last().push(b.last()))
    }
}

proof fn lemma_split_nul_nonempty(b: Seq<u8>)
    ensures
        split_nul(b).len() >= 1,
    decreases b.len(),
{
    if b.len() > 0 {
        lemma_split_nul_nonempty(b.drop_last());
    }
}

/// The runs that are not empty, in order.
pub open spec fn filled(parts: Seq<Seq<u8>>) -> Seq<Seq<u8>>
    decreases parts.len(),
{
    if parts.len() == 0 {
        seq![]
    } else if parts.last().len() > 0 {
        filled(parts.drop_last()).push(parts.last())
    } else {
        filled(parts.drop_last())
    }
}

/// The fields of Git's `-z` output: the nonempty runs between NUL bytes.
pub open spec fn nul_fields(b: Seq<u8>) -> Seq<Seq<u8>> {
    filled(split_nul(b))
}

pub open spec fn bviews(v: Seq<Vec<u8>>) -> Seq<Seq<u8>> {
    v.map_values(|x: Vec<u8>| x@)
}

/// Splits `-z` output into its fields.
pub fn fields_of(out: &[u8]) -> (r: Vec<Vec<u8>>)
    ensures
        bviews(r@) == nul_fields(out@),
{
    let mut done: Vec<Vec<u8>> = Vec::new();
    let mut cur: Vec<u8> = Vec::new();
    let mut i: usize = 0;
    proof {
        assert(split_nul(out@.take(0)) =~= seq![Seq::<u8>::empty()]);
        assert(bviews(done@) =~= filled(split_nul(out@.take(0)).drop_last()));
    }
    while i < out.len()
        invariant
            i <= out@.len(),
            split_nul(out@.take(i as int)).len() >= 1,
            bviews(done@) == filled(split_nul(out@.take(i as int)).drop_last()),
            cur@ == split_nul(out@.take(i as int)).last(),
        decreases out@.len() - i,
    {
        let ghost prev = split_nul(out@.take(i as int));
        let ghost next = split_nul(out@.take(i + 1));
        proof {
            assert(out@.take(i + 1).drop_last() =~= out@.take(i as int));
            lemma_split_nul_nonempty(out@.take(i + 1));
        }
        if out[i] == 0 {
            assert(next == prev.push(Seq::<u8>::empty()));
            assert(next.drop_last() =~= prev);
            if cur.len() > 0 {
                let ghost before = bviews(done@);
                done.push(cur);
                assert(bviews(done@) =~= before.push(done@.last()@));
            }
            cur = Vec::new();
            assert(cur@ =~= next.last());
        } else {
            assert(next == prev.update(prev.len() - 1, prev.last().push(out@[i as int])));
            assert(next.drop_last() =~= prev.drop_last());
            cur.push(out[i]);
        }
        i += 1;
    }
    proof {
        assert(out@.take(out@.len() as int) =~= out@);
    }
    let ghost all = split_nul(out@);
    if cur.len() > 0 {
        let ghost before = bviews(done@);
        done.push(cur);
        assert(bviews(done@) =~= before.push(done@.last()@));
    }
    assert(all.drop_last().push(all.last()) =~= all);
    done
}

// ---------------------------------------------------------------------
// Text and paths
// ---------------------------------------------------------------------

/// What `std::str::Utf8Error` says of bytes that are not UTF-8.
pub uninterp spec fn utf8_complaint(bytes: Seq<u8>) -> Seq<char>;

/// The text that UTF-8 bytes encode, or the complaint about them.
pub open spec fn decoded(bytes: Seq<u8>) -> Result<Seq<char>, Seq<char>> {
    if valid_utf8(bytes) {
        Ok(decode_utf8(bytes))
    } else {
        Err(utf8_complaint(bytes))
    }
}

/// `std::str::from_utf8`: the bytes as text when they are UTF-8, else the
/// error's message.
#[verifier::external_body]
pub(crate) fn utf8_text(bytes: &[u8]) -> (r: Result<String, String>)
    ensures
        match r {
            Ok(s) => valid_utf8(bytes@) && s@ == decode_utf8(bytes@),
            Err(e) => !valid_utf8(bytes@) && e@ == utf8_complaint(bytes@),
        },
{
    match std::str::from_utf8(bytes) {
        Ok(s) => Ok(s.to_owned()),
        Err(e) => Err(e.to_string()),
    }
}

/// `full.strip_prefix(root)`: the rest of `full` when `root` begins it.
pub open spec fn relative(root: Seq<char>, full: Seq<char>) -> Option<Seq<char>> {
    if under(full, root) {
        Some(joined_all(segments(full).skip(segments(root).len() as int)))
    } else {
        None
    }
}

/// `full.strip_prefix(root)` for `/`-separated paths.
pub fn relative_to(root: &str, full: &str) -> (r: Option<String>)
    ensures
        opt_view(r) == relative(root@, full@),
{
    if !starts_with(full, root) {
        return None;
    }
    let segs = segments_of(full);
    let skip = segments_of(root).len();
    let r = join_range(&segs, skip, segs.len());
    assert(views(segs@).subrange(skip as int, segs@.len() as int) =~= segments(full@).skip(skip as int));
    Some(r)
}


// ---------------------------------------------------------------------
// Changed paths
// ---------------------------------------------------------------------

/// Whether a `--name-status` field reports a rename (`R` and a score).
pub open spec fn renamed(status: Seq<u8>) -> bool {
    status.len() > 0 && status[0] == 82u8
}

/// Records a rename from `old` to `new`, each relative to the root when it
/// lies there: the new path keeps the old one; a path alone is recorded
/// without one.
pub open spec fn with_pair(
    m: Map<Seq<char>, Option<Seq<char>>>,
    old: Option<Seq<char>>,
    new: Option<Seq<char>>,
) -> Map<Seq<char>, Option<Seq<char>>> {
    match (old, new) {
        (Some(o), Some(n)) => m.insert(n, Some(o)),
        (Some(o), None) => m.insert(o, None),
        (None, Some(n)) => m.insert(n, None),
        (None, None) => m,
    }
}

/// Reads `git diff --name-status -z` fields from field `i` on into `m`:
/// each status is followed by a path, and a rename by a second one; paths
/// are relative to `top` and recorded relative to `root`.
pub open spec fn diff_from(
    f: Seq<Seq<u8>>,
    i: int,
    top: Seq<char>,
    root: Seq<char>,
    m: Map<Seq<char>, Option<Seq<char>>>,
) -> Result<Map<Seq<char>, Option<Seq<char>>>, Seq<char>>
    decreases f.len() - i,
{
    if i >= f.len() {
        Ok(m)
    } else if i + 1 >= f.len() {
        Err("missing Git path"@)
    } else {
        match decoded(f[i + 1]) {
            Err(e) => Err(e),
            Ok(first) => {
                let first = joined(top, first);
                if renamed(f[i]) {
                    if i + 2 >= f.len() {
                        Err("missing rename path"@)
                    } else {
                        match decoded(f[i + 2]) {
                            Err(e) => Err(e),
                            Ok(second) => diff_from(
                                f,
                                i + 3,
                                top,
                                root,
                                with_pair(m, relative(root, first), relative(root, joined(top, second))),
                            ),
                        }
                    }
                } else {
                    diff_from(
                        f,
                        i + 2,
                        top,
                        root,
                        match relative(root, first) {
                            Some(p) => m.insert(p, None),
                            None => m,
                        },
                    )
                }
            },
        }
    }
}

/// Adds the untracked paths that `git ls-files --others -z` listed, from
/// field `i` on, to `m`; a path already recorded keeps its entry.
pub open spec fn untracked_from(
    f: Seq<Seq<u8>>,
    i: int,
    top: Seq<char>,
    root: Seq<char>,
    m: Map<Seq<char>, Option<Seq<char>>>,
) -> Result<Map<Seq<char>, Option<Seq<char>>>, Seq<char>>
    decreases f.len() - i,
{
    if i >= f.len() {
        Ok(m)
    } else {
        match decoded(f[i]) {
            Err(e) => Err(e),
            Ok(name) => untracked_from(
                f,
                i + 1,
                top,
                root,
                match relative(root, joined(top, name)) {
                    Some(p) => if m.dom().contains(p) {
                        m
                    } else {
                        m.insert(p, None)
                    },
                    None => m,
                },
            ),
        }
    }
}

/// The result of a path-ordered list as a map, or the error.
pub open spec fn listed(r: Result<Vec<(String, Option<String>)>, String>) -> Result<
    Map<Seq<char>, Option<Seq<char>>>,
    Seq<char>,
> {
    match r {
        Ok(v) => Ok(as_map(entry_views(v@))),
        Err(e) => Err(e@),
    }
}

pub open spec fn path_ordered(r: Result<Vec<(String, Option<String>)>, String>) -> bool {
    r matches Ok(v) ==> ascending(keys_of(entry_views(v@)))
}

proof fn lemma_empty_map()
    ensures
        as_map(Seq::<(Seq<char>, Option<Seq<char>>)>::empty()) == Map::<Seq<char>, Option<Seq<char>>>::empty(),
{
    assert(as_map(Seq::<(Seq<char>, Option<Seq<char>>)>::empty()) =~= Map::<Seq<char>, Option<Seq<char>>>::empty());
}

/// The paths that `git diff --name-status --find-renames -z` reports as
/// changed, relative to `root`, each with the path it was renamed from;
/// `top` is the repository's top directory.
pub fn diff_paths_of(names: &[u8], top: &str, root: &str) -> (r: Result<Vec<(String, Option<String>)>, String>)
    ensures
        listed(r) == diff_from(nul_fields(names@), 0, top@, root@, Map::empty()),
        path_ordered(r),
{
    let f = fields_of(names);
    let ghost fv = bviews(f@);
    let mut paths: Vec<(String, Option<String>)> = Vec::new();
    proof {
        lemma_empty_map();
        assert(entry_views(paths@) =~= Seq::<(Seq<char>, Option<Seq<char>>)>::empty());
    }
    let mut i: usize = 0;
    while i < f.len()
        invariant
            i <= f@.len(),
            fv == bviews(f@),
            fv == nul_fields(names@),
            ascending(keys_of(entry_views(paths@))),
            diff_from(fv, 0, top@, root@, Map::empty()) == diff_from(fv, i as int, top@, root@, as_map(entry_views(paths@))),
        decreases f@.len() - i,
    {
        let ghost m = as_map(entry_views(paths@));
        if i + 1 >= f.len() {
            return Err(text("missing Git path"));
        }
        assert(fv[i + 1] == f@[i + 1]@);
        assert(fv[i as int] == f@[i as int]@);
        let first = match utf8_text(&f[i + 1]) {
            Ok(t) => join(top, t.as_str()),
            Err(e) => return Err(e),
        };
        if f[i].len() > 0 && f[i][0] == 82u8 {
            if i + 2 >= f.len() {
                return Err(text("missing rename path"));
            }
            assert(fv[i + 2] == f@[i + 2]@);
            let second = match utf8_text(&f[i + 2]) {
                Ok(t) => join(top, t.as_str()),
                Err(e) => return Err(e),
            };
            match (relative_to(root, first.as_str()), relative_to(root, second.as_str())) {
                (Some(old), Some(new)) => put(&mut paths, new, Some(old), false),
                (Some(old), None) => put(&mut paths, old, None, false),
                (None, Some(new)) => put(&mut paths, new, None, false),
                (None, None) => {},
            }
            i += 3;
        } else {
            match relative_to(root, first.as_str()) {
                Some(p) => put(&mut paths, p, None, false),
                None => {},
            }
            i += 2;
        }
    }
    Ok(paths)
}

/// Adds the untracked paths listed by `git ls-files --others
/// --exclude-standard -z` to the changed paths, relative to `root`; a path
/// already recorded keeps its entry.
pub fn with_untracked(paths: Vec<(String, Option<String>)>, untracked: &[u8], top: &str, root: &str) -> (r: Result<
    Vec<(String, Option<String>)>,
    String,
>)
    requires
        ascending(keys_of(entry_views(paths@))),
    ensures
        listed(r) == untracked_from(nul_fields(untracked@), 0, top@, root@, as_map(entry_views(paths@))),
        path_ordered(r),
{
    let f = fields_of(untracked);
    let ghost fv = bviews(f@);
    let ghost start = as_map(entry_views(paths@));
    let mut acc = paths;
    let mut i: usize = 0;
    while i < f.len()
        invariant
            i <= f@.len(),
            fv == bviews(f@),
            fv == nul_fields(untracked@),
            ascending(keys_of(entry_views(acc@))),
            start == as_map(entry_views(paths@)),
            untracked_from(fv, 0, top@, root@, start) == untracked_from(fv, i as int, top@, root@, as_map(entry_views(acc@))),
        decreases f@.len() - i,
    {
        assert(fv[i as int] == f@[i as int]@);
        let full = match utf8_text(&f[i]) {
            Ok(t) => join(top, t.as_str()),
            Err(e) => {
                assert(untracked_from(fv, i as int, top@, root@, as_map(entry_views(acc@))) == Err::<Map<Seq<char>, Option<Seq<char>>>, Seq<char>>(e@));
                return Err(e);
            },
        };
        match relative_to(root, full.as_str()) {
            Some(p) => put(&mut acc, p, None, true),
            None => {},
        }
        i += 1;
    }
    Ok(acc)
}

/// Git's output as text, without surrounding whitespace.
pub fn output_text(out: &[u8]) -> (r: Result<String, String>)
    ensures
        match decoded(out@) {
            Ok(t) => r matches Ok(s) && s@ == trim(t),
            Err(e) => r matches Err(m) && m@ == e,
        },
{
    match utf8_text(out) {
        Ok(t) => {
            let v = chars_of(t.as_str());
            Ok(string_of(&trimmed(&v)))
        },
        Err(e) => Err(e),
    }
}

/// A reference that begins with `-` would be read as an option.
pub fn check_reference(reference: &str) -> (r: Result<(), String>)
    ensures
        match r {
            Ok(()) => !(reference@.len() > 0 && reference@[0] == '-'),
            Err(e) => reference@.len() > 0 && reference@[0] == '-' && e@ == "Git reference cannot start with '-'"@,
        },
{
    let v = chars_of(reference);
    if v.len() > 0 && v[0] == '-' {
        Err(text("Git reference cannot start with '-'"))
    } else {
        Ok(())
    }
}


// ---------------------------------------------------------------------
// A file as the base commit has it
// ---------------------------------------------------------------------

/// The digits of an unsigned integer's text: all of it, or what follows a
/// leading `+`.
pub open spec fn unsigned_digits(s: Seq<char>) -> Seq<char> {
    if s.len() > 0 && s[0] == '+' {
        s.drop_first()
    } else {
        s
    }
}

/// Whether a text is one or more ASCII digits.
pub open spec fn all_digits(d: Seq<char>) -> bool {
    d.len() > 0 && forall|k: int| 0 <= k < d.len() ==> crate::text::digit(#[trigger] d[k])
}

/// The value of an unsigned integer as `str::parse` reads one: ASCII
/// digits, with an optional leading `+`.
pub open spec fn unsigned(s: Seq<char>) -> Option<nat> {
    if all_digits(unsigned_digits(s)) {
        Some(crate::text::digits_value(unsigned_digits(s)))
    } else {
        None
    }
}

/// What `std::num::ParseIntError` says of text that is no `usize`.
pub uninterp spec fn int_complaint(s: Seq<char>) -> Seq<char>;

/// The message of the error that `s.parse::<usize>()` gives for text that
/// is no `usize`.
#[verifier::external_body]
fn int_error(s: &str) -> (r: String)
    requires
        !(unsigned(s@) matches Some(v) && v <= usize::MAX),
    ensures
        r@ == int_complaint(s@),
{
    match s.parse::<usize>() {
        Ok(_) => String::new(),
        Err(e) => e.to_string(),
    }
}

/// Reads a `usize` as `str::parse` does: the value, or the error's message.
fn parse_size(s: &str) -> (r: Result<usize, String>)
    ensures
        match r {
            Ok(n) => unsigned(s@) == Some(n as nat),
            Err(e) => !(unsigned(s@) matches Some(v) && v <= usize::MAX) && e@ == int_complaint(s@),
        },
{
    let c = chars_of(s);
    let from: usize = if c.len() > 0 && c[0] == '+' {
        1
    } else {
        0
    };
    let d = slice_of(&c, from, c.len());
    assert(d@ =~= unsigned_digits(s@));
    let r = crate::text::parse_usize(&d);
    match r {
        Some(n) => Ok(n),
        None => Err(int_error(s)),
    }
}

/// The path of `path` (relative to `root`) from the repository's top
/// directory, or the complaint of `Path::strip_prefix`.
pub fn base_path(top: &str, root: &str, path: &str) -> (r: Result<String, String>)
    ensures
        match relative(top@, joined(root@, path@)) {
            Some(p) => r matches Ok(s) && s@ == p,
            None => r matches Err(e) && e@ == "prefix not found"@,
        },
{
    let full = join(root, path);
    match relative_to(top, full.as_str()) {
        Some(p) => Ok(p),
        None => Err(text("prefix not found")),
    }
}

/// Whether `listing` begins with the bytes of `prefix`.
pub open spec fn begins(listing: Seq<u8>, prefix: Seq<u8>) -> bool {
    prefix.len() <= listing.len() && listing.take(prefix.len() as int) == prefix
}

pub open spec fn regular_file() -> Seq<u8> {
    seq![49u8, 48u8, 48u8, 54u8, 52u8, 52u8, 32u8]
}

pub open spec fn executable_file() -> Seq<u8> {
    seq![49u8, 48u8, 48u8, 55u8, 53u8, 53u8, 32u8]
}

fn begins_with(listing: &[u8], prefix: &[u8]) -> (r: bool)
    ensures
        r == begins(listing@, prefix@),
{
    if prefix.len() > listing.len() {
        return false;
    }
    let mut k: usize = 0;
    while k < prefix.len()
        invariant
            k <= prefix@.len() <= listing@.len(),
            forall|j: int| 0 <= j < k ==> listing@[j] == prefix@[j],
        decreases prefix@.len() - k,
    {
        if listing[k] != prefix[k] {
            assert(listing@.take(prefix@.len() as int)[k as int] != prefix@[k as int]);
            return false;
        }
        k += 1;
    }
    assert(listing@.take(prefix@.len() as int) =~= prefix@);
    true
}

/// Reads `git ls-tree -z` for one path: `Ok(false)` when the base has no
/// such path, `Ok(true)` for a regular or executable file, and an error for
/// anything else (a link, a directory, a submodule).
pub fn base_listing(listing: &[u8], relative: &str) -> (r: Result<bool, String>)
    ensures
        listing@.len() == 0 ==> r == Ok::<bool, String>(false),
        listing@.len() > 0 ==> match r {
            Ok(b) => b && (begins(listing@, regular_file()) || begins(listing@, executable_file())),
            Err(e) => !begins(listing@, regular_file()) && !begins(listing@, executable_file())
                && e@ == "base input must be a regular file: "@ + relative@,
        },
{
    if listing.len() == 0 {
        return Ok(false);
    }
    let regular: [u8; 7] = [49u8, 48u8, 48u8, 54u8, 52u8, 52u8, 32u8];
    let executable: [u8; 7] = [49u8, 48u8, 48u8, 55u8, 53u8, 53u8, 32u8];
    assert(regular@ =~= regular_file());
    assert(executable@ =~= executable_file());
    if begins_with(listing, &regular) || begins_with(listing, &executable) {
        Ok(true)
    } else {
        Err(text_with("base input must be a regular file: ", &chars_of(relative)))
    }
}

/// Checks the size that `git cat-file -s` reported against the limit on
/// inputs.
pub fn base_size(out: &[u8], relative: &str) -> (r: Result<(), String>)
    ensures
        match decoded(out@) {
            Err(e) => r matches Err(m) && m@ == e,
            Ok(t) => match unsigned(trim(t)) {
                Some(n) => if n > usize::MAX {
                    r matches Err(m) && m@ == int_complaint(trim(t))
                } else if n > MAX_FILE_BYTES {
                    r matches Err(m) && m@ == "base file exceeds 64 KiB: "@ + relative@
                } else {
                    r is Ok
                },
                None => r matches Err(m) && m@ == int_complaint(trim(t)),
            },
        },
{
    let t = match output_text(out) {
        Ok(t) => t,
        Err(e) => return Err(e),
    };
    let size = match parse_size(t.as_str()) {
        Ok(n) => n,
        Err(e) => return Err(e),
    };
    if size > MAX_FILE_BYTES {
        return Err(text_with("base file exceeds 64 KiB: ", &chars_of(relative)));
    }
    Ok(())
}

/// The text of a file read from the base commit: no NUL byte, and UTF-8.
pub fn base_text(bytes: &[u8], relative: &str) -> (r: Result<String, String>)
    ensures
        match r {
            Ok(s) => !bytes@.contains(0u8) && valid_utf8(bytes@) && s@ == decode_utf8(bytes@),
            Err(e) => if bytes@.contains(0u8) {
                e@ == "binary base file: "@ + relative@
            } else {
                !valid_utf8(bytes@) && e@ == "base file is not UTF-8"@
            },
        },
{
    let mut k: usize = 0;
    while k < bytes.len()
        invariant
            k <= bytes@.len(),
            forall|j: int| 0 <= j < k ==> bytes@[j] != 0u8,
        decreases bytes@.len() - k,
    {
        if bytes[k] == 0u8 {
            return Err(text_with("binary base file: ", &chars_of(relative)));
        }
        k += 1;
    }
    match utf8_text(bytes) {
        Ok(s) => Ok(s),
        Err(_) => Err(text("base file is not UTF-8")),
    }
}

} // verus!
