//! Reading a `.contracts/NNN-name/CONTRACT.md` document: its place in the
//! project, its YAML frontmatter, its sections and examples.
use vstd::prelude::*;
use vstd::utf8::*;
use core::ops::Range;
use crate::contract::{Contract, ContractView, DocumentError, ExampleView, examples_view, opt_view};
use crate::markdown::{
    Span, SpanView, commonmark, markdown_spans, outline, outline_of, sections_view, spans_view,
    split_once, split_once_of,
};
use crate::paths::{segments, segments_of};
use crate::text::{
    blank, chars_of, count_newlines, digit, digits_value, find_char, is_blank, is_kebab, is_text,
    kebab, lead, lemma_utf8_len, lemma_utf8_len_concat, newlines, parse_u32, slice_of, string_of,
    text, text_with, trail, trail_of, trim, trim_bounds, trim_end, utf8_len, utf8_len_of, width,
    char_width, lemma_encode_concat,
};

verus! {

broadcast use vstd::seq_lib::group_seq_properties;

/// The index just past the line that starts at `p`: past its `\n`, or the
/// end of the text.
pub open spec fn line_end(d: Seq<char>, p: int) -> int
    decreases d.len() - p,
{
    if p >= d.len() {
        d.len() as int
    } else if d[p] == '\n' {
        p + 1
    } else {
        line_end(d, p + 1)
    }
}

/// A frontmatter delimiter line: `---` followed by whitespace only.
pub open spec fn is_dashes(line: Seq<char>) -> bool {
    trim_end(line) == "---"@
}

/// The start of the first delimiter line at or after `p`.
pub open spec fn closing(d: Seq<char>, p: int) -> Option<int>
    decreases d.len() - p,
{
    if p < 0 || p >= d.len() {
        None
    } else {
        let q = line_end(d, p);
        if is_dashes(d.subrange(p, q)) {
            Some(p)
        } else if p < q && q <= d.len() {
            closing(d, q)
        } else {
            None
        }
    }
}

/// `components.join("/")`.
pub open spec fn joined_all(s: Seq<Seq<char>>) -> Seq<char>
    decreases s.len(),
{
    if s.len() == 0 {
        seq![]
    } else if s.len() == 1 {
        s[0]
    } else {
        joined_all(s.drop_last()) + seq!['/'] + s.last()
    }
}

/// Where a contract document places its contract, and where its
/// frontmatter and body are (character indices).
pub struct Layout {
    pub number: u32,
    pub scope: String,
    pub front_start: usize,
    pub front_end: usize,
    pub body_start: usize,
}

pub struct LayoutView {
    pub number: u32,
    pub scope: Seq<char>,
    pub front_start: int,
    pub front_end: int,
    pub body_start: int,
}

impl View for Layout {
    type V = LayoutView;

    open spec fn view(&self) -> LayoutView {
        LayoutView {
            number: self.number,
            scope: self.scope@,
            front_start: self.front_start as int,
            front_end: self.front_end as int,
            body_start: self.body_start as int,
        }
    }
}

/// The placement of the document at `path` with text `d`, or the first
/// problem found in it.
#[verifier::opaque]
pub open spec fn layout(path: Seq<char>, d: Seq<char>) -> Result<LayoutView, Seq<char>> {
    let segs = segments(path);
    let n = segs.len() as int;
    if encode_utf8(d).len() > 65536 {
        Err("contract exceeds 65536 bytes"@)
    } else if n == 0 {
        Err("contract requires a numbered directory"@)
    } else if n == 1 {
        Err("contract requires .contracts"@)
    } else if !(n >= 3 && segs[n - 3] == ".contracts"@ && segs[n - 1] == "CONTRACT.md"@) {
        Err("expected .contracts/NNN-name/CONTRACT.md"@)
    } else {
        match split_once(segs[n - 2], '-') {
            None => Err("contract directory requires NNN-name"@),
            Some((digits, suffix)) => if !(digits.len() >= 3 && forall|k: int|
                0 <= k < digits.len() ==> digit(#[trigger] digits[k])) {
                Err("contract number needs at least three digits"@)
            } else if digits_value(digits) > u32::MAX {
                Err("number too large to fit in target type"@)
            } else if digits_value(digits) == 0 || !is_kebab(suffix) {
                Err("contract directory must be NNN-kebab-case with a positive number"@)
            } else if d.len() == 0 || !is_dashes(d.take(line_end(d, 0))) {
                Err("contract requires YAML frontmatter"@)
            } else if !d.contains('\n') {
                Err("missing frontmatter"@)
            } else {
                let start = line_end(d, 0);
                match closing(d, start) {
                    None => Err("unclosed YAML frontmatter"@),
                    Some(end) => Ok(
                        LayoutView {
                            number: digits_value(digits) as u32,
                            scope: joined_all(segs.take(n - 3)),
                            front_start: start,
                            front_end: end,
                            body_start: line_end(d, end),
                        },
                    ),
                }
            },
        }
    }
}

proof fn lemma_line_end_found(d: Seq<char>, p: int, i: int)
    requires
        0 <= p <= i < d.len(),
        d[i] == '\n',
        forall|k: int| p <= k < i ==> d[k] != '\n',
    ensures
        line_end(d, p) == i + 1,
    decreases i - p,
{
    if p < i {
        lemma_line_end_found(d, p + 1, i);
    }
}

proof fn lemma_line_end_none(d: Seq<char>, p: int)
    requires
        0 <= p <= d.len(),
        forall|k: int| p <= k < d.len() ==> d[k] != '\n',
    ensures
        line_end(d, p) == d.len(),
    decreases d.len() - p,
{
    if p < d.len() {
        lemma_line_end_none(d, p + 1);
    }
}

fn line_end_of(d: &Vec<char>, p: usize) -> (q: usize)
    requires
        p <= d@.len(),
    ensures
        q == line_end(d@, p as int),
        p <= q <= d@.len(),
        p < d@.len() ==> p < q,
{
    let n = d.len();
    match find_char(d, p, '\n') {
        Some(i) => {
            proof {
                lemma_line_end_found(d@, p as int, i as int);
            }
            i + 1
        },
        None => {
            proof {
                lemma_line_end_none(d@, p as int);
            }
            d.len()
        },
    }
}

fn dashes(d: &Vec<char>, p: usize, q: usize) -> (r: bool)
    requires
        p <= q <= d@.len(),
    ensures
        r == is_dashes(d@.subrange(p as int, q as int)),
{
    let t = trail_of(d, p, q);
    let line = slice_of(d, p, q - t);
    proof {
        assert(trim_end(d@.subrange(p as int, q as int)) =~= d@.subrange(p as int, (q - t) as int));
    }
    is_text(&line, "---")
}

/// `s[from..to].join("/")`.
pub fn join_range(s: &Vec<Vec<char>>, from: usize, to: usize) -> (r: String)
    requires
        from <= to <= s@.len(),
    ensures
        r@ == joined_all(crate::markdown::views(s@).subrange(from as int, to as int)),
{
    let ghost all = crate::markdown::views(s@);
    let mut v: Vec<char> = Vec::new();
    let mut i: usize = from;
    assert(all.subrange(from as int, from as int) =~= Seq::<Seq<char>>::empty());
    while i < to
        invariant
            from <= i <= to <= s@.len(),
            all == crate::markdown::views(s@),
            v@ == joined_all(all.subrange(from as int, i as int)),
        decreases to - i,
    {
        let ghost t = all.subrange(from as int, i + 1);
        proof {
            assert(t.drop_last() =~= all.subrange(from as int, i as int));
            assert(t.last() == s@[i as int]@);
        }
        if i > from {
            v.push('/');
        }
        let part = &s[i];
        let ghost base = v@;
        let mut k: usize = 0;
        while k < part.len()
            invariant
                k <= part@.len(),
                v@ == base + part@.take(k as int),
            decreases part@.len() - k,
        {
            v.push(part[k]);
            k += 1;
        }
        proof {
            assert(part@.take(part@.len() as int) =~= part@);
            if i == from {
                assert(v@ =~= t[0]);
            } else {
                assert(v@ =~= joined_all(t.drop_last()) + seq!['/'] + t.last());
            }
        }
        i += 1;
    }
    string_of(&v)
}

fn all_digits(s: &Vec<char>) -> (r: bool)
    ensures
        r == forall|k: int| 0 <= k < s@.len() ==> digit(#[trigger] s@[k]),
{
    let mut i: usize = 0;
    while i < s.len()
        invariant
            i <= s@.len(),
            forall|k: int| 0 <= k < i ==> digit(#[trigger] s@[k]),
        decreases s@.len() - i,
    {
        if !('0' <= s[i] && s[i] <= '9') {
            assert(!digit(s@[i as int]));
            return false;
        }
        i += 1;
    }
    true
}

fn problem(path: &str, line: usize, message: String) -> (e: DocumentError)
    ensures
        e.path@ == path@,
        e.line == line,
        e.message@ == message@,
{
    DocumentError { path: text(path), line, message }
}

/// Places the contract document at `path` (a `/`-separated path relative
/// to the project root) and finds its frontmatter and body; problems are
/// reported at line 1.
#[verifier::loop_isolation(false)]
pub fn layout_of(path: &str, document: &str) -> (r: Result<Layout, DocumentError>)
    ensures
        match (r, layout(path@, document@)) {
            (Ok(l), Ok(v)) => l@ == v,
            (Err(e), Err(m)) => e.path@ == path@ && e.line == 1 && e.message@ == m,
            _ => false,
        },
{
    reveal(layout);
    if document.as_bytes().len() > 65536 {
        return Err(problem(path, 1, text("contract exceeds 65536 bytes")));
    }
    let segs = segments_of(path);
    let n = segs.len();
    let ghost sv = crate::markdown::views(segs@);
    assert(sv == segments(path@));
    if n == 0 {
        return Err(problem(path, 1, text("contract requires a numbered directory")));
    }
    if n == 1 {
        return Err(problem(path, 1, text("contract requires .contracts")));
    }
    let placed = n >= 3 && is_text(&segs[n - 3], ".contracts") && is_text(
        &segs[n - 1],
        "CONTRACT.md",
    );
    proof {
        if n >= 3 {
            assert(sv[n - 3] == segs@[n - 3]@);
            assert(sv[n - 1] == segs@[n - 1]@);
        }
    }
    if !placed {
        return Err(problem(path, 1, text("expected .contracts/NNN-name/CONTRACT.md")));
    }
    assert(sv[n - 2] == segs@[n - 2]@);
    let (digits, suffix) = match split_once_of(&segs[n - 2], '-') {
        Some(p) => p,
        None => {
            return Err(problem(path, 1, text("contract directory requires NNN-name")));
        },
    };
    if !(digits.len() >= 3 && all_digits(&digits)) {
        return Err(problem(path, 1, text("contract number needs at least three digits")));
    }
    let number = match parse_u32(&digits) {
        Some(v) => v,
        None => {
            return Err(problem(path, 1, text("number too large to fit in target type")));
        },
    };
    if number == 0 || !kebab(&suffix) {
        return Err(
            problem(
                path,
                1,
                text("contract directory must be NNN-kebab-case with a positive number"),
            ),
        );
    }
    let d = chars_of(document);
    let first = if d.len() == 0 {
        false
    } else {
        let e = line_end_of(&d, 0);
        let line = slice_of(&d, 0, e);
        proof {
            assert(d@.take(e as int) =~= d@.subrange(0, e as int));
        }
        dashes(&d, 0, e)
    };
    if !first {
        return Err(problem(path, 1, text("contract requires YAML frontmatter")));
    }
    let nl = find_char(&d, 0, '\n');
    if nl.is_none() {
        proof {
            assert(!d@.contains('\n'));
        }
        return Err(problem(path, 1, text("missing frontmatter")));
    }
    proof {
        let i = nl.unwrap();
        assert(d@[i as int] == '\n');
    }
    let start = line_end_of(&d, 0);
    let mut p = start;
    let mut end: usize = 0;
    loop
        invariant
            start <= p <= d@.len(),
            closing(d@, start as int) == closing(d@, p as int),
        decreases d@.len() - p,
    {
        if p >= d.len() {
            return Err(problem(path, 1, text("unclosed YAML frontmatter")));
        }
        let q = line_end_of(&d, p);
        if dashes(&d, p, q) {
            end = p;
            break;
        }
        assert(closing(d@, p as int) == closing(d@, q as int));
        p = q;
    }
    let scope = join_range(&segs, 0, n - 3);
    assert(crate::markdown::views(segs@).subrange(0, n - 3) =~= crate::markdown::views(segs@).take(n - 3));
    proof {
        assert(sv.take(n - 3) == crate::markdown::views(segs@).take(n - 3));
    }
    let body_start = line_end_of(&d, end);
    Ok(Layout { number, scope, front_start: start, front_end: end, body_start })
}


// ---------------------------------------------------------------------
// Frontmatter, sections and assembly
// ---------------------------------------------------------------------

/// A YAML problem: the 1-based line within the frontmatter, when known,
/// and the parser's description.
pub struct YamlFault {
    pub line: Option<usize>,
    pub message: String,
}

/// The `name` and `message` of a frontmatter, which the caller reads from
/// its YAML text (a field other than these two, a field given twice, a
/// missing field or a value that is not text are the reader's errors).
pub struct Metadata {
    pub name: String,
    pub message: String,
}

pub open spec fn yaml_view(r: Result<Metadata, YamlFault>) -> Result<(Seq<char>, Seq<char>), (Option<usize>, Seq<char>)> {
    match r {
        Ok(m) => Ok((m.name@, m.message@)),
        Err(f) => Err((f.line, f.message@)),
    }
}

/// The BLAKE3 digest of the input in hexadecimal.
pub uninterp spec fn blake3_digest(input: Seq<u8>) -> Seq<char>;

pub open spec fn lower_hex(c: char) -> bool {
    ('0' <= c && c <= '9') || ('a' <= c && c <= 'f')
}

/// `blake3::hash(input).to_hex()`: 64 lowercase hexadecimal digits that
/// depend on the input alone.
#[verifier::external_body]
pub(crate) fn blake3_hex(input: &[u8]) -> (r: String)
    ensures
        r@ == blake3_digest(input@),
        r@.len() == 64,
        forall|k: int| 0 <= k < 64 ==> lower_hex(#[trigger] r@[k]),
{
    blake3::hash(input).to_hex().to_string()
}

/// The BLAKE3 digest of `bytes` as 64 lowercase hexadecimal digits, as
/// reports record the hashes of their inputs.
pub fn digest_hex(bytes: &[u8]) -> (r: String)
    ensures
        r@ == blake3_digest(bytes@),
        r@.len() == 64,
        forall|k: int| 0 <= k < 64 ==> lower_hex(#[trigger] r@[k]),
{
    blake3_hex(bytes)
}

/// The character index at which byte `b` of the text's UTF-8 encoding
/// begins, if a character begins there.
pub open spec fn char_at_byte(d: Seq<char>, b: int) -> Option<int> {
    if exists|i: int| 0 <= i <= d.len() && utf8_len(d.take(i)) == b {
        Some(choose|i: int| 0 <= i <= d.len() && utf8_len(d.take(i)) == b)
    } else {
        None
    }
}

/// The byte range recorded for the section `name`.
pub open spec fn find_section(secs: Seq<(Seq<char>, usize, usize)>, name: Seq<char>) -> Option<
    (usize, usize),
>
    decreases secs.len(),
{
    if secs.len() == 0 {
        None
    } else if secs.last().0 == name {
        Some((secs.last().1, secs.last().2))
    } else {
        find_section(secs.drop_last(), name)
    }
}

/// The character range of section `name`: `None` when there is no such
/// section, `Some(None)` when its byte range does not fall on characters.
pub open spec fn section_range(d: Seq<char>, secs: Seq<(Seq<char>, usize, usize)>, name: Seq<char>) -> Option<
    Option<(int, int)>,
> {
    match find_section(secs, name) {
        None => None,
        Some((s, e)) => match (char_at_byte(d, s as int), char_at_byte(d, e as int)) {
            (Some(a), Some(b)) => if a <= b {
                Some(Some((a, b)))
            } else {
                Some(None)
            },
            _ => Some(None),
        },
    }
}

pub open spec fn misplaced() -> Seq<char> {
    "section range does not fall on character boundaries"@
}

pub open spec fn no_rules() -> Seq<char> {
    "contract requires a nonempty ## Rules section"@
}

/// The character range of the trimmed `## Rules` text.
pub open spec fn rules_range(d: Seq<char>, secs: Seq<(Seq<char>, usize, usize)>) -> Result<
    (int, int),
    Seq<char>,
> {
    match section_range(d, secs, "Rules"@) {
        None => Err(no_rules()),
        Some(None) => Err(misplaced()),
        Some(Some((a, b))) => {
            let x = a + lead(d.subrange(a, b));
            let y = x + trim(d.subrange(a, b)).len();
            if x == y {
                Err(no_rules())
            } else {
                Ok((x, y))
            }
        },
    }
}

/// The trimmed `## Applies to` text, when the section is there.
pub open spec fn applies_text(d: Seq<char>, secs: Seq<(Seq<char>, usize, usize)>) -> Result<
    Option<Seq<char>>,
    Seq<char>,
> {
    match section_range(d, secs, "Applies to"@) {
        None => Ok(None),
        Some(None) => Err(misplaced()),
        Some(Some((a, b))) => if trim(d.subrange(a, b)).len() == 0 {
            Err("## Applies to must not be empty"@)
        } else {
            Ok(Some(trim(d.subrange(a, b))))
        },
    }
}

/// The contract that a document's body gives, after its frontmatter has
/// supplied `name` and `message`.
#[verifier::opaque]
pub open spec fn contents(
    path: Seq<char>,
    d: Seq<char>,
    l: LayoutView,
    name: Seq<char>,
    message: Seq<char>,
    spans: Seq<SpanView>,
    hash: Seq<char>,
) -> Result<ContractView, (nat, Seq<char>)> {
    let offset = utf8_len(d.take(l.body_start));
    match outline(spans, encode_utf8(d), offset as usize) {
        Err(m) => Err((1, m)),
        Ok((sections, examples)) => if trim(d.skip(l.body_start)).len() == 0 {
            Err((1, "contract body must not be empty"@))
        } else {
            match rules_range(d, sections) {
                Err(m) => Err((1, m)),
                Ok((x, y)) => match applies_text(d, sections) {
                    Err(m) => Err((1, m)),
                    Ok(applies_to) => Ok(
                        ContractView {
                            name,
                            message,
                            number: l.number,
                            path,
                            scope: l.scope,
                            rules: d.subrange(x, y),
                            body: trim(d.skip(l.body_start)),
                            applies_to,
                            examples,
                            rules_line: newlines(d.take(x)) + 1,
                            rules_start: utf8_len(d.take(x)),
                            rules_end: utf8_len(d.take(y)),
                            hash,
                            document: d,
                        },
                    ),
                },
            }
        },
    }
}

/// The contract that a placed document gives, from what its YAML
/// frontmatter, its Markdown events and its digest are.
pub open spec fn assembled(
    path: Seq<char>,
    d: Seq<char>,
    l: LayoutView,
    yaml: Result<(Seq<char>, Seq<char>), (Option<usize>, Seq<char>)>,
    spans: Seq<SpanView>,
    hash: Seq<char>,
) -> Result<ContractView, (nat, Seq<char>)> {
    match yaml {
        Err((loc, msg)) => Err(
            (
                match loc {
                    Some(x) => if x < usize::MAX {
                        (x + 1) as nat
                    } else {
                        x as nat
                    },
                    None => 2,
                },
                msg,
            ),
        ),
        Ok((name, message)) => if !is_kebab(name) {
            Err((1, "name must be lowercase kebab-case"@))
        } else if blank(message) {
            Err((1, "message must not be empty"@))
        } else {
            contents(path, d, l, name, message, spans, hash)
        },
    }
}

/// Whether an outcome is the expected one, errors named at `path`.
pub open spec fn reads_as(
    r: Result<Contract, DocumentError>,
    path: Seq<char>,
    s: Result<ContractView, (nat, Seq<char>)>,
) -> bool {
    match (r, s) {
        (Ok(c), Ok(v)) => c@ == v,
        (Err(e), Err((line, m))) => e.path@ == path && e.line as nat == line && e.message@ == m,
        _ => false,
    }
}

proof fn lemma_line_end_bounds(d: Seq<char>, p: int)
    requires
        0 <= p <= d.len(),
    ensures
        p <= line_end(d, p) <= d.len(),
        p < d.len() ==> p < line_end(d, p),
    decreases d.len() - p,
{
    if p < d.len() && d[p] != '\n' {
        lemma_line_end_bounds(d, p + 1);
    }
}

proof fn lemma_closing_bounds(d: Seq<char>, p: int)
    requires
        0 <= p,
    ensures
        closing(d, p) matches Some(e) ==> p <= e < d.len(),
    decreases d.len() - p,
{
    if 0 <= p < d.len() {
        lemma_line_end_bounds(d, p);
        let q = line_end(d, p);
        if !is_dashes(d.subrange(p, q)) && p < q && q <= d.len() {
            lemma_closing_bounds(d, q);
        }
    }
}

/// A placed document fits the size limit and its parts are in order.
pub proof fn lemma_layout_bounds(path: Seq<char>, d: Seq<char>)
    ensures
        layout(path, d) matches Ok(v) ==> {
            &&& 0 <= v.front_start <= v.front_end <= v.body_start <= d.len()
            &&& utf8_len(d) <= 65536
        },
{
    reveal(layout);
    lemma_utf8_len(d);
    if layout(path, d) is Ok {
        lemma_line_end_bounds(d, 0);
        let start = line_end(d, 0);
        lemma_closing_bounds(d, start);
        let end = closing(d, start).unwrap();
        lemma_line_end_bounds(d, end);
    }
}

proof fn lemma_take_step(d: Seq<char>, i: int)
    requires
        0 <= i < d.len(),
    ensures
        utf8_len(d.take(i + 1)) == utf8_len(d.take(i)) + width(d[i]),
{
    let one = seq![d[i]];
    assert(d.take(i + 1) =~= d.take(i) + one);
    lemma_utf8_len_concat(d.take(i), one);
    reveal_with_fuel(utf8_len, 2);
    assert(one.drop_first().len() == 0);
}

proof fn lemma_take_strict(d: Seq<char>, i: int, j: int)
    requires
        0 <= i < j <= d.len(),
    ensures
        utf8_len(d.take(i)) < utf8_len(d.take(j)),
    decreases j - i,
{
    lemma_take_step(d, j - 1);
    if i < j - 1 {
        lemma_take_strict(d, i, j - 1);
    }
}

fn char_index(d: &Vec<char>, b: usize) -> (r: Option<usize>)
    requires
        utf8_len(d@) <= 65536,
    ensures
        match (r, char_at_byte(d@, b as int)) {
            (Some(i), Some(j)) => i == j && i <= d@.len(),
            (None, None) => true,
            _ => false,
        },
{
    let mut total: usize = 0;
    let mut i: usize = 0;
    while i < d.len() && total < b
        invariant
            i <= d@.len(),
            total == utf8_len(d@.take(i as int)),
            utf8_len(d@) <= 65536,
            i > 0 ==> utf8_len(d@.take(i - 1)) < b,
        decreases d@.len() - i,
    {
        proof {
            lemma_take_step(d@, i as int);
            crate::text::lemma_utf8_len_sub_bound(d@, 0, i + 1);
            assert(d@.subrange(0, i + 1) =~= d@.take(i + 1));
        }
        total = total + char_width(d[i]);
        i += 1;
    }
    if total == b {
        proof {
            assert(0 <= i <= d@.len() && utf8_len(d@.take(i as int)) == b);
            let j = choose|j: int| 0 <= j <= d@.len() && utf8_len(d@.take(j)) == b;
            if j < i {
                lemma_take_strict(d@, j, i as int);
            }
            if i < j {
                lemma_take_strict(d@, i as int, j);
            }
        }
        Some(i)
    } else {
        proof {
            assert forall|j: int| 0 <= j <= d@.len() implies utf8_len(d@.take(j)) != b by {
                if j < i {
                    if j < i - 1 {
                        lemma_take_strict(d@, j, i - 1);
                    }
                } else if j > i {
                    lemma_take_strict(d@, i as int, j);
                } else {
                }
                if i == d@.len() && j < i {
                    lemma_take_strict(d@, j, i as int);
                }
            }
        }
        None
    }
}

fn find_section_in(secs: &Vec<(Vec<char>, usize, usize)>, name: &str) -> (r: Option<(usize, usize)>)
    ensures
        r == find_section(sections_view(secs@), name@),
{
    let mut i = secs.len();
    while i > 0
        invariant
            i <= secs@.len(),
            find_section(sections_view(secs@), name@) == find_section(
                sections_view(secs@).take(i as int),
                name@,
            ),
        decreases i,
    {
        let ghost t = sections_view(secs@).take(i as int);
        assert(t.drop_last() =~= sections_view(secs@).take(i - 1));
        if is_text(&secs[i - 1].0, name) {
            return Some((secs[i - 1].1, secs[i - 1].2));
        }
        i -= 1;
    }
    None
}

fn range_of(d: &Vec<char>, secs: &Vec<(Vec<char>, usize, usize)>, name: &str) -> (r: Option<
    Option<(usize, usize)>,
>)
    requires
        utf8_len(d@) <= 65536,
    ensures
        match (r, section_range(d@, sections_view(secs@), name@)) {
            (None, None) => true,
            (Some(None), Some(None)) => true,
            (Some(Some((a, b))), Some(Some((x, y)))) => a == x && b == y && b <= d@.len(),
            _ => false,
        },
{
    match find_section_in(secs, name) {
        None => None,
        Some((s, e)) => {
            match (char_index(d, s), char_index(d, e)) {
                (Some(a), Some(b)) => {
                    if a <= b {
                        Some(Some((a, b)))
                    } else {
                        Some(None)
                    }
                },
                _ => Some(None),
            }
        },
    }
}



#[verifier::spinoff_prover]
pub proof fn lemma_encoded_slice(d: Seq<char>, x: int, y: int)
    requires
        0 <= x <= y <= d.len(),
    ensures
        encode_utf8(d).subrange(utf8_len(d.take(x)) as int, utf8_len(d.take(y)) as int)
            == encode_utf8(d.subrange(x, y)),
{
    let a = d.take(x);
    let m = d.subrange(x, y);
    let z = d.skip(y);
    assert(d =~= a + m + z);
    assert(d.take(y) =~= a + m);
    lemma_encode_concat(a, m);
    lemma_encode_concat(a + m, z);
    lemma_utf8_len(a);
    lemma_utf8_len(a + m);
    lemma_utf8_len_concat(a, m);
    lemma_utf8_len(m);
    assert(encode_utf8(d).subrange(utf8_len(a) as int, utf8_len(a + m) as int) =~= encode_utf8(m));
}

/// The byte offsets of two character positions are character boundaries,
/// in order, within the encoding.
proof fn lemma_span_boundaries(d: Seq<char>, x: int, y: int)
    requires
        0 <= x <= y <= d.len(),
    ensures
        utf8_len(d.take(x)) <= utf8_len(d.take(y)) <= encode_utf8(d).len(),
        vstd::utf8::is_char_boundary(encode_utf8(d), utf8_len(d.take(x)) as int),
        vstd::utf8::is_char_boundary(encode_utf8(d), utf8_len(d.take(y)) as int),
{
    lemma_utf8_len(d.take(x));
    lemma_utf8_len(d.take(y));
    crate::text::lemma_prefix_boundary(d, x);
    crate::text::lemma_prefix_boundary(d, y);
    assert(d.take(y) =~= d.take(x) + d.subrange(x, y));
    lemma_utf8_len_concat(d.take(x), d.subrange(x, y));
}

/// Builds the contract from a placed document and what the YAML reader,
/// the Markdown reader and the digest gave for it.
#[verifier::loop_isolation(false)]
pub fn assemble(
    path: &str,
    document: &str,
    placed: &Layout,
    yaml: Result<Metadata, YamlFault>,
    spans: &Vec<Span>,
    hash: String,
) -> (r: Result<Contract, DocumentError>)
    requires
        layout(path@, document@) == Ok::<LayoutView, Seq<char>>(placed@),
    ensures
        reads_as(r, path@, assembled(path@, document@, placed@, yaml_view(yaml), spans_view(spans@), hash@)),
        r matches Ok(c) ==> decode_utf8(
            encode_utf8(document@).subrange(c.rules_span.start as int, c.rules_span.end as int),
        ) == c.rules@,
        r matches Ok(c) ==> crate::text::markable(document@, c.rules_span.start, c.rules_span.end),
{
    let (name, message) = match yaml {
        Err(f) => {
            let line = match f.line {
                Some(x) => x.saturating_add(1),
                None => 2,
            };
            return Err(problem(path, line, f.message));
        },
        Ok(m) => (m.name, m.message),
    };
    let name_chars = chars_of(name.as_str());
    if !kebab(&name_chars) {
        return Err(problem(path, 1, text("name must be lowercase kebab-case")));
    }
    if is_blank(&chars_of(message.as_str())) {
        return Err(problem(path, 1, text("message must not be empty")));
    }
    body_contract(path, document, placed, name, message, spans, hash)
}

fn rules_of(d: &Vec<char>, secs: &Vec<(Vec<char>, usize, usize)>) -> (r: Result<(usize, usize), String>)
    requires
        utf8_len(d@) <= 65536,
    ensures
        match (r, rules_range(d@, sections_view(secs@))) {
            (Ok((x, y)), Ok((a, b))) => x == a && y == b && x <= y <= d@.len(),
            (Err(m), Err(v)) => m@ == v,
            _ => false,
        },
{
    let (a, b) = match range_of(d, secs, "Rules") {
        None => {
            return Err(text("contract requires a nonempty ## Rules section"));
        },
        Some(None) => {
            return Err(text("section range does not fall on character boundaries"));
        },
        Some(Some(r)) => r,
    };
    let (x, y) = trim_bounds(d, a, b);
    if x == y {
        return Err(text("contract requires a nonempty ## Rules section"));
    }
    Ok((x, y))
}

fn applies_of(d: &Vec<char>, secs: &Vec<(Vec<char>, usize, usize)>) -> (r: Result<Option<String>, String>)
    requires
        utf8_len(d@) <= 65536,
    ensures
        match (r, applies_text(d@, sections_view(secs@))) {
            (Ok(t), Ok(v)) => opt_view(t) == v,
            (Err(m), Err(v)) => m@ == v,
            _ => false,
        },
{
    match range_of(d, secs, "Applies to") {
        None => Ok(None),
        Some(None) => Err(text("section range does not fall on character boundaries")),
        Some(Some((p, q))) => {
            let (u, w) = trim_bounds(d, p, q);
            if u == w {
                return Err(text("## Applies to must not be empty"));
            }
            Ok(Some(string_of(&slice_of(d, u, w))))
        },
    }
}

/// The contract from a placed document whose frontmatter gave `name` and
/// `message`.
#[verifier::loop_isolation(false)]
#[verifier::rlimit(30)]
fn body_contract(
    path: &str,
    document: &str,
    placed: &Layout,
    name: String,
    message: String,
    spans: &Vec<Span>,
    hash: String,
) -> (r: Result<Contract, DocumentError>)
    requires
        layout(path@, document@) == Ok::<LayoutView, Seq<char>>(placed@),
    ensures
        reads_as(r, path@, contents(path@, document@, placed@, name@, message@, spans_view(spans@), hash@)),
        r matches Ok(c) ==> decode_utf8(
            encode_utf8(document@).subrange(c.rules_span.start as int, c.rules_span.end as int),
        ) == c.rules@,
        r matches Ok(c) ==> crate::text::markable(document@, c.rules_span.start, c.rules_span.end),
{
    reveal(contents);
    proof {
        lemma_layout_bounds(path@, document@);
    }
    let d = chars_of(document);
    let bytes = document.as_bytes();
    proof {
        lemma_utf8_len(d@);
        crate::text::lemma_utf8_len_sub_bound(d@, 0, placed.body_start as int);
        assert(d@.subrange(0, placed.body_start as int) =~= d@.take(placed.body_start as int));
    }
    let offset = utf8_len_of(&d, 0, placed.body_start);
    assert(d@.subrange(0, placed.body_start as int) =~= d@.take(placed.body_start as int));
    let (sections, examples) = match outline_of(spans, bytes, offset) {
        Ok(o) => o,
        Err(m) => {
            return Err(problem(path, 1, m));
        },
    };
    let n = d.len();
    let (bs, be) = trim_bounds(&d, placed.body_start, n);
    assert(d@.subrange(placed.body_start as int, n as int) =~= d@.skip(placed.body_start as int));
    if bs == be {
        return Err(problem(path, 1, text("contract body must not be empty")));
    }
    let (x, y) = match rules_of(&d, &sections) {
        Ok(r) => r,
        Err(m) => {
            return Err(problem(path, 1, m));
        },
    };
    let applies_to = match applies_of(&d, &sections) {
        Ok(t) => t,
        Err(m) => {
            return Err(problem(path, 1, m));
        },
    };
    let rules_start = utf8_len_of(&d, 0, x);
    let rules_end = utf8_len_of(&d, 0, y);
    let rules_line = count_newlines(&d, x) + 1;
    proof {
        assert(d@.subrange(0, x as int) =~= d@.take(x as int));
        assert(d@.subrange(0, y as int) =~= d@.take(y as int));
        lemma_encoded_slice(d@, x as int, y as int);
        vstd::utf8::encode_utf8_decode_utf8(d@.subrange(x as int, y as int));
        lemma_span_boundaries(d@, x as int, y as int);
    }
    let c = Contract {
        name,
        message,
        number: placed.number,
        path: text(path),
        scope: placed.scope.clone(),
        rules: string_of(&slice_of(&d, x, y)),
        body: string_of(&slice_of(&d, bs, be)),
        applies_to,
        examples,
        rules_line,
        rules_span: Range { start: rules_start, end: rules_end },
        hash,
        document: text(document),
    };
    Ok(c)
}

/// The YAML frontmatter of the contract document at `path` with text
/// `document`, or the error that its placement or shape gives.
pub fn frontmatter(path: &str, document: &str) -> (r: Result<String, DocumentError>)
    ensures
        match layout(path@, document@) {
            Err(m) => r matches Err(e) && e.path@ == path@ && e.line == 1 && e.message@ == m,
            Ok(l) => r matches Ok(t) && t@ == document@.subrange(l.front_start, l.front_end),
        },
{
    let placed = match layout_of(path, document) {
        Ok(l) => l,
        Err(e) => {
            return Err(e);
        },
    };
    proof {
        lemma_layout_bounds(path@, document@);
    }
    let d = chars_of(document);
    Ok(string_of(&slice_of(&d, placed.front_start, placed.front_end)))
}

/// Reads the contract document at `path` (relative to the project root,
/// `/` between components) with text `document`; `front` is what a YAML
/// reader made of its frontmatter (see `frontmatter`): the `name` and
/// `message`, or the reader's error with its line within the frontmatter.
pub fn parse(path: &str, document: &str, front: Result<Metadata, YamlFault>) -> (r: Result<Contract, DocumentError>)
    ensures
        match layout(path@, document@) {
            Err(m) => r matches Err(e) && e.path@ == path@ && e.line == 1 && e.message@ == m,
            Ok(l) => reads_as(
                r,
                path@,
                assembled(
                    path@,
                    document@,
                    l,
                    yaml_view(front),
                    commonmark(document@.skip(l.body_start)),
                    blake3_digest(encode_utf8(document@)),
                ),
            ),
        },
        r matches Ok(c) ==> decode_utf8(
            encode_utf8(document@).subrange(c.rules_span.start as int, c.rules_span.end as int),
        ) == c.rules@,
        r matches Ok(c) ==> crate::text::markable(document@, c.rules_span.start, c.rules_span.end),
{
    let placed = match layout_of(path, document) {
        Ok(l) => l,
        Err(e) => {
            return Err(e);
        },
    };
    proof {
        lemma_layout_bounds(path@, document@);
    }
    let d = chars_of(document);
    let body = string_of(&slice_of(&d, placed.body_start, d.len()));
    assert(d@.subrange(placed.body_start as int, d@.len() as int) =~= d@.skip(
        placed.body_start as int,
    ));
    let spans = markdown_spans(body.as_str());
    let hash = blake3_hex(document.as_bytes());
    assemble(path, document, &placed, front, &spans, hash)
}

} // verus!
