//! Relative paths, written as `/`-separated text, and the rules that decide
//! which paths are contract documents, which are excluded from the
//! inventory, and which contract scopes cover them.
use vstd::prelude::*;
use crate::text::{chars_of, is_text, same};

verus! {

broadcast use vstd::seq_lib::group_seq_properties;

/// `s.split(c)`: the runs between occurrences of `c` (one empty run for an
/// empty string).
pub open spec fn split_on(s: Seq<char>, c: char) -> Seq<Seq<char>>
    decreases s.len(),
{
    if s.len() == 0 {
        seq![Seq::<char>::empty()]
    } else if s.last() == c {
        split_on(s.drop_last(), c).push(Seq::<char>::empty())
    } else {
        let r = split_on(s.drop_last(), c);
        r.update(r.len() - 1, r.last().push(s.last()))
    }
}

pub proof fn lemma_split_nonempty(s: Seq<char>, c: char)
    ensures
        split_on(s, c).len() >= 1,
    decreases s.len(),
{
    if s.len() > 0 {
        lemma_split_nonempty(s.drop_last(), c);
    }
}

/// `parts.join(c)` for at least one part.
pub open spec fn glue(parts: Seq<Seq<char>>, c: char) -> Seq<char>
    decreases parts.len(),
{
    if parts.len() <= 1 {
        if parts.len() == 1 {
            parts[0]
        } else {
            seq![]
        }
    } else {
        glue(parts.drop_last(), c) + seq![c] + parts.last()
    }
}

/// Splitting and joining again gives back the text.
pub proof fn lemma_glue_split(s: Seq<char>, c: char)
    ensures
        glue(split_on(s, c), c) == s,
    decreases s.len(),
{
    if s.len() > 0 {
        let p = s.drop_last();
        lemma_glue_split(p, c);
        lemma_split_nonempty(p, c);
        let r = split_on(p, c);
        if s.last() == c {
            let r2 = r.push(Seq::<char>::empty());
            assert(r2.drop_last() =~= r);
            assert(s =~= p + seq![c]);
        } else {
            let r2 = r.update(r.len() - 1, r.last().push(s.last()));
            if r.len() == 1 {
                assert(s =~= p.push(s.last()));
            } else {
                assert(r2.drop_last() =~= r.drop_last());
                assert(s =~= p.push(s.last()));
                assert(glue(r2, c) =~= glue(r.drop_last(), c) + seq![c] + r.last().push(s.last()));
            }
        }
    } else {
        assert(split_on(s, c) =~= seq![Seq::<char>::empty()]);
    }
}

/// The components of a relative path: the runs between `/`, none for `""`.
pub open spec fn segments(p: Seq<char>) -> Seq<Seq<char>> {
    if p.len() == 0 {
        Seq::empty()
    } else {
        split_on(p, '/')
    }
}

/// `s.split(c)` as vectors of characters.
pub fn split_chars(s: &[char], c: char) -> (r: Vec<Vec<char>>)
    ensures
        r@.map_values(|x: Vec<char>| x@) == split_on(s@, c),
{
    let mut done: Vec<Vec<char>> = Vec::new();
    let mut cur: Vec<char> = Vec::new();
    let mut i: usize = 0;
    while i < s.len()
        invariant
            i <= s@.len(),
            done@.map_values(|x: Vec<char>| x@).push(cur@) == split_on(s@.take(i as int), c),
        decreases s@.len() - i,
    {
        proof {
            assert(s@.take(i + 1).drop_last() =~= s@.take(i as int));
            lemma_split_nonempty(s@.take(i as int), c);
        }
        if s[i] == c {
            let ghost before = done@.map_values(|x: Vec<char>| x@);
            done.push(cur);
            cur = Vec::new();
            proof {
                assert(done@.map_values(|x: Vec<char>| x@) =~= before.push(done@.last()@));
            }
        } else {
            let ghost before = done@.map_values(|x: Vec<char>| x@);
            cur.push(s[i]);
            proof {
                assert(done@.map_values(|x: Vec<char>| x@) =~= before);
            }
        }
        i += 1;
    }
    proof {
        assert(s@.take(s@.len() as int) =~= s@);
    }
    let ghost before = done@.map_values(|x: Vec<char>| x@);
    done.push(cur);
    proof {
        assert(done@.map_values(|x: Vec<char>| x@) =~= before.push(done@.last()@));
    }
    done
}

/// The components of a path, as vectors of characters.
pub fn segments_of(p: &str) -> (r: Vec<Vec<char>>)
    ensures
        r@.map_values(|x: Vec<char>| x@) == segments(p@),
{
    let v = chars_of(p);
    if v.len() == 0 {
        let r: Vec<Vec<char>> = Vec::new();
        proof {
            assert(r@.map_values(|x: Vec<char>| x@) =~= Seq::<Seq<char>>::empty());
        }
        r
    } else {
        split_chars(&v, '/')
    }
}

/// Whether some component of the path is `.contracts`: contract documents
/// and their support files, which are never code subjects.
pub open spec fn in_contracts(p: Seq<char>) -> bool {
    exists|k: int| 0 <= k < segments(p).len() && #[trigger] segments(p)[k] == ".contracts"@
}

/// Whether `name` is one of the directory or file names that discovery
/// never enters: version control, tool state, secrets and build outputs.
pub open spec fn excluded(name: Seq<char>) -> bool {
    ||| name == ".git"@
    ||| name == ".context"@
    ||| name == ".agents"@
    ||| name == ".tenet"@
    ||| name == ".env"@
    ||| name == "target"@
    ||| name == "node_modules"@
    ||| name == "dist"@
    ||| name == "out"@
    ||| (name.len() >= 5 && name.take(5) == ".env."@)
}

/// Whether no component of the path is excluded.
pub open spec fn permitted(p: Seq<char>) -> bool {
    forall|k: int| 0 <= k < segments(p).len() ==> !excluded(#[trigger] segments(p)[k])
}

pub fn is_excluded(name: &[char]) -> (r: bool)
    ensures
        r == excluded(name@),
{
    proof {
        reveal_strlit(".env.");
    }
    let dot_env = name.len() >= 5 && name[0] == '.' && name[1] == 'e' && name[2] == 'n'
        && name[3] == 'v' && name[4] == '.';
    proof {
        let lit = ".env."@;
        if name@.len() >= 5 {
            if dot_env {
                assert(name@.take(5) =~= lit);
            }
            if name@.take(5) == lit {
                assert(name@[0] == name@.take(5)[0]);
                assert(name@[1] == name@.take(5)[1]);
                assert(name@[2] == name@.take(5)[2]);
                assert(name@[3] == name@.take(5)[3]);
                assert(name@[4] == name@.take(5)[4]);
            }
        }
    }
    is_text(name, ".git") || is_text(name, ".context") || is_text(name, ".agents") || is_text(
        name,
        ".tenet",
    ) || is_text(name, ".env") || is_text(name, "target") || is_text(name, "node_modules")
        || is_text(name, "dist") || is_text(name, "out") || dot_env
}

/// Whether a file or directory name is excluded from discovery.
pub fn excluded_name(name: &str) -> (r: bool)
    ensures
        r == excluded(name@),
{
    let v = chars_of(name);
    is_excluded(&v)
}

/// Whether the path lies under a `.contracts` directory.
pub fn is_contract(path: &str) -> (r: bool)
    ensures
        r == in_contracts(path@),
{
    let parts = segments_of(path);
    let mut k: usize = 0;
    while k < parts.len()
        invariant
            k <= parts@.len(),
            parts@.map_values(|x: Vec<char>| x@) == segments(path@),
            forall|j: int| 0 <= j < k ==> segments(path@)[j] != ".contracts"@,
        decreases parts@.len() - k,
    {
        assert(parts@.map_values(|x: Vec<char>| x@)[k as int] == parts@[k as int]@);
        if is_text(&parts[k], ".contracts") {
            return true;
        }
        k += 1;
    }
    false
}

/// Whether no component of the path is excluded from discovery.
pub fn allowed(path: &str) -> (r: bool)
    ensures
        r == permitted(path@),
{
    let parts = segments_of(path);
    let mut k: usize = 0;
    while k < parts.len()
        invariant
            k <= parts@.len(),
            parts@.map_values(|x: Vec<char>| x@) == segments(path@),
            forall|j: int| 0 <= j < k ==> !excluded(#[trigger] segments(path@)[j]),
        decreases parts@.len() - k,
    {
        assert(parts@.map_values(|x: Vec<char>| x@)[k as int] == parts@[k as int]@);
        if is_excluded(&parts[k]) {
            return false;
        }
        k += 1;
    }
    true
}

/// Whether the components of `prefix` begin the components of `p`
/// (`Path::starts_with`).
pub open spec fn under(p: Seq<char>, prefix: Seq<char>) -> bool {
    let a = segments(p);
    let b = segments(prefix);
    b.len() <= a.len() && forall|k: int| 0 <= k < b.len() ==> #[trigger] a[k] == b[k]
}

/// Whether the path lies within the scope.
pub fn starts_with(path: &str, scope: &str) -> (r: bool)
    ensures
        r == under(path@, scope@),
{
    let a = segments_of(path);
    let b = segments_of(scope);
    if b.len() > a.len() {
        return false;
    }
    let mut k: usize = 0;
    while k < b.len()
        invariant
            k <= b@.len() <= a@.len(),
            a@.map_values(|x: Vec<char>| x@) == segments(path@),
            b@.map_values(|x: Vec<char>| x@) == segments(scope@),
            forall|j: int| 0 <= j < k ==> #[trigger] segments(path@)[j] == segments(scope@)[j],
        decreases b@.len() - k,
    {
        assert(a@.map_values(|x: Vec<char>| x@)[k as int] == a@[k as int]@);
        assert(b@.map_values(|x: Vec<char>| x@)[k as int] == b@[k as int]@);
        if !same(&a[k], &b[k]) {
            return false;
        }
        k += 1;
    }
    true
}

/// A relative path that stays within its root: it is not absolute and no
/// component is `..` (`Component::Normal` or `Component::CurDir` only).
pub open spec fn inward(p: Seq<char>) -> bool {
    &&& (p.len() == 0 || p[0] != '/')
    &&& forall|k: int| 0 <= k < split_on(p, '/').len() ==> #[trigger] split_on(p, '/')[k] != ".."@
}

/// A relative path made of `Component::Normal` parts only: `inward`, and
/// it does not begin with a `.` component.
pub open spec fn plain(p: Seq<char>) -> bool {
    &&& inward(p)
    &&& (p.len() == 0 || split_on(p, '/')[0] != "."@)
}

pub fn is_inward(path: &[char]) -> (r: bool)
    ensures
        r == inward(path@),
{
    if path.len() > 0 && path[0] == '/' {
        return false;
    }
    let parts = split_chars(path, '/');
    let mut k: usize = 0;
    while k < parts.len()
        invariant
            k <= parts@.len(),
            parts@.map_values(|x: Vec<char>| x@) == split_on(path@, '/'),
            forall|j: int| 0 <= j < k ==> #[trigger] split_on(path@, '/')[j] != ".."@,
        decreases parts@.len() - k,
    {
        assert(parts@.map_values(|x: Vec<char>| x@)[k as int] == parts@[k as int]@);
        if is_text(&parts[k], "..") {
            return false;
        }
        k += 1;
    }
    true
}

pub fn is_plain(path: &[char]) -> (r: bool)
    ensures
        r == plain(path@),
{
    if !is_inward(path) {
        return false;
    }
    if path.len() == 0 {
        return true;
    }
    let parts = split_chars(path, '/');
    proof {
        lemma_split_nonempty(path@, '/');
    }
    assert(parts@.map_values(|x: Vec<char>| x@)[0] == parts@[0]@);
    !is_text(&parts[0], ".")
}

/// `scope.join(path)` for relative paths.
pub open spec fn joined(scope: Seq<char>, path: Seq<char>) -> Seq<char> {
    if scope.len() == 0 {
        path
    } else {
        scope + seq!['/'] + path
    }
}

pub fn join(scope: &str, path: &str) -> (r: String)
    ensures
        r@ == joined(scope@, path@),
{
    let a = chars_of(scope);
    if a.len() == 0 {
        return crate::text::text(path);
    }
    let mut v = a;
    v.push('/');
    let b = chars_of(path);
    let mut i: usize = 0;
    while i < b.len()
        invariant
            i <= b@.len(),
            v@ == scope@ + seq!['/'] + b@.take(i as int),
        decreases b@.len() - i,
    {
        v.push(b[i]);
        i += 1;
    }
    assert(b@.take(b@.len() as int) =~= b@);
    crate::text::string_of(&v)
}

} // verus!
