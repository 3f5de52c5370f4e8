//! The Markdown layer of a contract: top-level `#`/`##` sections and the
//! `tenet:example` fences under `## Examples`, read from the event stream
//! of a CommonMark parser.
use vstd::prelude::*;
use pulldown_cmark::CodeBlockKind::{Fenced, Indented};
use pulldown_cmark::Parser;
use pulldown_cmark::Event::{Code, End, Start, Text};
use pulldown_cmark::Tag::{BlockQuote, CodeBlock, Heading, Item, List};
use pulldown_cmark::TagEnd::{
    BlockQuote as BlockQuoteEnd, CodeBlock as CodeBlockEnd, Heading as HeadingEnd, Item as ItemEnd, List as ListEnd,
};
use crate::contract::{Example, ExampleChange, ExampleView, Verdict, opt_view};
use crate::paths::{is_plain, plain};
use crate::text::{blank, contains_run, text_with, has_run, chars_of, decimal, decimal_of, find_char, is_blank, is_space, is_text, same, slice_of, space, string_of, text};

verus! {

use Mark::{
    BlockClose, Chars, FenceOpen, HeadingClose, HeadingOpen, IndentOpen, InlineCode, ItemClose, ItemOpen, ListClose, ListOpen, Other,
    QuoteClose, QuoteOpen,
};

broadcast use vstd::seq_lib::group_seq_properties;

/// One parser event, as the section and example rules see it: each event
/// kind that they read has a variant of its own, and `Other` stands for
/// every other kind.
pub enum Mark {
    /// The start of a block quote.
    QuoteOpen,
    QuoteClose,
    /// The start of a list.
    ListOpen,
    ListClose,
    /// The start of a list item.
    ItemOpen,
    ItemClose,
    /// The start of a heading of the given level (1 to 6).
    HeadingOpen(u8),
    HeadingClose(u8),
    Chars(String),
    InlineCode(String),
    /// The start of a fenced code block, with its info string.
    FenceOpen(String),
    /// The start of an indented code block.
    IndentOpen,
    /// The end of a code block of either kind.
    BlockClose,
    Other,
}

/// An event and its byte range within the parsed text.
pub struct Span {
    pub mark: Mark,
    pub start: usize,
    pub end: usize,
}

pub enum MarkView {
    QuoteOpen,
    QuoteClose,
    ListOpen,
    ListClose,
    ItemOpen,
    ItemClose,
    HeadingOpen(u8),
    HeadingClose(u8),
    Chars(Seq<char>),
    InlineCode(Seq<char>),
    FenceOpen(Seq<char>),
    IndentOpen,
    BlockClose,
    Other,
}

pub struct SpanView {
    pub mark: MarkView,
    pub start: usize,
    pub end: usize,
}

impl View for Mark {
    type V = MarkView;

    open spec fn view(&self) -> MarkView {
        match self {
            Mark::QuoteOpen => MarkView::QuoteOpen,
            Mark::QuoteClose => MarkView::QuoteClose,
            Mark::ListOpen => MarkView::ListOpen,
            Mark::ListClose => MarkView::ListClose,
            Mark::ItemOpen => MarkView::ItemOpen,
            Mark::ItemClose => MarkView::ItemClose,
            Mark::HeadingOpen(l) => MarkView::HeadingOpen(*l),
            Mark::HeadingClose(l) => MarkView::HeadingClose(*l),
            Mark::Chars(t) => MarkView::Chars(t@),
            Mark::InlineCode(t) => MarkView::InlineCode(t@),
            Mark::FenceOpen(t) => MarkView::FenceOpen(t@),
            Mark::IndentOpen => MarkView::IndentOpen,
            Mark::BlockClose => MarkView::BlockClose,
            Mark::Other => MarkView::Other,
        }
    }
}

impl View for Span {
    type V = SpanView;

    open spec fn view(&self) -> SpanView {
        SpanView { mark: self.mark@, start: self.start, end: self.end }
    }
}

pub open spec fn spans_view(v: Seq<Span>) -> Seq<SpanView> {
    v.map_values(|s: Span| s@)
}

/// The events, with byte ranges, that `pulldown_cmark` produces for a
/// text with default options.
pub uninterp spec fn commonmark(text: Seq<char>) -> Seq<SpanView>;

/// Runs `pulldown_cmark::Parser::new(text).into_offset_iter()` and gives
/// each event with its byte range, the event kinds that the rules read each
/// as its own `Mark`; the result is a function of the text alone.
#[verifier::external_body]
pub(crate) fn markdown_spans(text: &str) -> (r: Vec<Span>)
    ensures
        spans_view(r@) == commonmark(text@),
{
    Parser::new(text).into_offset_iter().map(|(e, s)| Span { mark: match e {
        Start(BlockQuote(_)) => QuoteOpen, End(BlockQuoteEnd(_)) => QuoteClose,
        Start(List(_)) => ListOpen, End(ListEnd(_)) => ListClose,
        Start(Item) => ItemOpen, End(ItemEnd) => ItemClose,
        Start(Heading { level, .. }) => HeadingOpen(level as u8), End(HeadingEnd(level)) => HeadingClose(level as u8),
        Text(t) => Chars(t.into_string()), Code(t) => InlineCode(t.into_string()),
        Start(CodeBlock(Fenced(i))) => FenceOpen(i.into_string()), Start(CodeBlock(Indented)) => IndentOpen,
        End(CodeBlockEnd) => BlockClose, _ => Other
    }, start: s.start, end: s.end }).collect()
}

// ---------------------------------------------------------------------
// Example fences
// ---------------------------------------------------------------------

/// `s.split_whitespace()`.
pub open spec fn words(s: Seq<char>) -> Seq<Seq<char>>
    decreases s.len(),
{
    if s.len() == 0 {
        seq![]
    } else {
        let w = words(s.drop_last());
        let c = s.last();
        if is_space(c) {
            w
        } else if s.len() == 1 || is_space(s[s.len() - 2]) {
            w.push(seq![c])
        } else {
            w.update(w.len() - 1, w.last().push(c))
        }
    }
}

proof fn lemma_words_last(s: Seq<char>)
    requires
        s.len() > 0,
        !is_space(s.last()),
    ensures
        words(s).len() >= 1,
    decreases s.len(),
{
    if !(s.len() == 1 || is_space(s[s.len() - 2])) {
        let p = s.drop_last();
        assert(p.last() == s[s.len() - 2]);
        lemma_words_last(p);
    }
}

pub open spec fn views(v: Seq<Vec<char>>) -> Seq<Seq<char>> {
    v.map_values(|x: Vec<char>| x@)
}

/// `s.split_whitespace()` as vectors of characters.
pub fn words_of(s: &[char]) -> (r: Vec<Vec<char>>)
    ensures
        views(r@) == words(s@),
{
    let mut out: Vec<Vec<char>> = Vec::new();
    let mut i: usize = 0;
    while i < s.len()
        invariant
            i <= s@.len(),
            views(out@) == words(s@.take(i as int)),
        decreases s@.len() - i,
    {
        let c = s[i];
        let ghost t = s@.take(i + 1);
        proof {
            assert(t.drop_last() =~= s@.take(i as int));
            assert(t.last() == c);
        }
        if space(c) {
        } else if i == 0 || space(s[i - 1]) {
            let ghost before = views(out@);
            let mut w: Vec<char> = Vec::new();
            w.push(c);
            out.push(w);
            proof {
                assert(views(out@) =~= before.push(seq![c]));
            }
        } else {
            proof {
                assert(t[t.len() - 2] == s@[i - 1]);
                lemma_words_last(s@.take(i as int));
            }
            let ghost before = views(out@);
            let last = out.len() - 1;
            let mut w = out.pop().unwrap();
            w.push(c);
            out.push(w);
            proof {
                assert(views(out@) =~= before.update(before.len() - 1, before.last().push(c)));
            }
        }
        i += 1;
    }
    assert(s@.take(s@.len() as int) =~= s@);
    out
}

/// Whether `i` is the first index of `c` in `s`.
pub open spec fn first_of(s: Seq<char>, c: char, i: int) -> bool {
    0 <= i < s.len() && s[i] == c && forall|k: int| 0 <= k < i ==> s[k] != c
}

/// `s.split_once(c)`.
pub open spec fn split_once(s: Seq<char>, c: char) -> Option<(Seq<char>, Seq<char>)> {
    if exists|i: int| first_of(s, c, i) {
        let i = choose|i: int| first_of(s, c, i);
        Some((s.take(i), s.skip(i + 1)))
    } else {
        None
    }
}

pub fn split_once_of(s: &[char], c: char) -> (r: Option<(Vec<char>, Vec<char>)>)
    ensures
        match (r, split_once(s@, c)) {
            (Some((a, b)), Some((x, y))) => a@ == x && b@ == y,
            (None, None) => true,
            _ => false,
        },
{
    match find_char(s, 0, c) {
        Some(i) => {
            proof {
                assert(first_of(s@, c, i as int));
                let j = choose|j: int| first_of(s@, c, j);
                if j < i {
                    assert(s@[j] != c);
                }
                if i < j {
                    assert(s@[i as int] != c);
                }
            }
            let n = s.len();
            Some((slice_of(s, 0, i), slice_of(s, i + 1, n)))
        },
        None => None,
    }
}

/// The value recorded for `key`, the last one recorded.
pub open spec fn lookup(acc: Seq<(Seq<char>, Seq<char>)>, key: Seq<char>) -> Option<Seq<char>>
    decreases acc.len(),
{
    if acc.len() == 0 {
        None
    } else if acc.last().0 == key {
        Some(acc.last().1)
    } else {
        lookup(acc.drop_last(), key)
    }
}

/// Records one `key=value` option of an example fence.
pub open spec fn add_option(acc: Seq<(Seq<char>, Seq<char>)>, w: Seq<char>) -> Result<
    Seq<(Seq<char>, Seq<char>)>,
    Seq<char>,
> {
    match split_once(w, '=') {
        None => Err("invalid example option: "@ + w),
        Some((k, v)) => if !(k == "expect"@ || k == "path"@ || k == "name"@) {
            Err("unknown example option: "@ + k)
        } else if v.len() == 0 || lookup(acc, k) is Some {
            Err("empty or duplicate example option: "@ + k)
        } else {
            Ok(acc.push((k, v)))
        },
    }
}

/// The options of an example fence, in order, or the first problem.
pub open spec fn options(ws: Seq<Seq<char>>) -> Result<Seq<(Seq<char>, Seq<char>)>, Seq<char>>
    decreases ws.len(),
{
    if ws.len() == 0 {
        Ok(seq![])
    } else {
        match options(ws.drop_last()) {
            Err(e) => Err(e),
            Ok(acc) => add_option(acc, ws.last()),
        }
    }
}

pub open spec fn verdict_named(v: Option<Seq<char>>) -> Option<Verdict> {
    match v {
        Some(s) => if s == "pass"@ {
            Some(Verdict::Pass)
        } else if s == "fail"@ {
            Some(Verdict::Fail)
        } else if s == "not_applicable"@ {
            Some(Verdict::NotApplicable)
        } else if s == "uncertain"@ {
            Some(Verdict::Uncertain)
        } else {
            None
        },
        None => None,
    }
}

/// What `serde_json` makes of a text read as a map from strings to
/// optional strings: its entries in key order, or the error's message.
pub uninterp spec fn json_fields(text: Seq<char>) -> Result<Seq<(Seq<char>, Option<Seq<char>>)>, Seq<char>>;

pub open spec fn fields_view(v: Seq<(String, Option<String>)>) -> Seq<(Seq<char>, Option<Seq<char>>)> {
    v.map_values(|p: (String, Option<String>)| (p.0@, opt_view(p.1)))
}

/// `serde_json::from_str::<BTreeMap<String, Option<String>>>`: the entries
/// in key order, or the error's message; a function of the text alone.
#[verifier::external_body]
fn read_json_fields(text: &str) -> (r: Result<Vec<(String, Option<String>)>, String>)
    ensures
        match r {
            Ok(v) => json_fields(text@) == Ok::<Seq<(Seq<char>, Option<Seq<char>>)>, Seq<char>>(fields_view(v@)),
            Err(e) => json_fields(text@) == Err::<Seq<(Seq<char>, Option<Seq<char>>)>, Seq<char>>(e@),
        },
{
    match serde_json::from_str::<std::collections::BTreeMap<String, Option<String>>>(text) {
        Ok(map) => Ok(map.into_iter().collect()),
        Err(e) => Err(e.to_string()),
    }
}

/// The first field that is neither `before` nor `after`.
pub open spec fn other_field(f: Seq<(Seq<char>, Option<Seq<char>>)>) -> Option<Seq<char>>
    decreases f.len(),
{
    if f.len() == 0 {
        None
    } else {
        match other_field(f.drop_last()) {
            Some(k) => Some(k),
            None => if f.last().0 == "before"@ || f.last().0 == "after"@ {
                None
            } else {
                Some(f.last().0)
            },
        }
    }
}

/// The text of field `k`: `None` when it is missing or null.
pub open spec fn field(f: Seq<(Seq<char>, Option<Seq<char>>)>, k: Seq<char>) -> Option<Seq<char>>
    decreases f.len(),
{
    if f.len() == 0 {
        None
    } else if f.last().0 == k {
        f.last().1
    } else {
        field(f.drop_last(), k)
    }
}

/// The before and after contents that the JSON body of a `tenet:change`
/// fence gives: an object with optional text fields `before` and `after`,
/// at least one of them, and no other field.
pub open spec fn change_of(f: Result<Seq<(Seq<char>, Option<Seq<char>>)>, Seq<char>>) -> Result<
    (Option<Seq<char>>, Option<Seq<char>>),
    Seq<char>,
> {
    match f {
        Err(m) => Err("invalid change example: "@ + m),
        Ok(p) => match other_field(p) {
            Some(k) => Err("unknown change field: "@ + k),
            None => if field(p, "before"@) is None && field(p, "after"@) is None {
                Err("change example needs before or after"@)
            } else {
                Ok((field(p, "before"@), field(p, "after"@)))
            },
        },
    }
}

/// The example described by a fence with info string `info` and contents
/// `source`, the `index`-th fence of its document, at line `line`. A
/// `tenet:example` fence gives a file's contents; a `tenet:change` fence
/// gives, as a JSON object, the contents before and after a change.
pub open spec fn example_of(info: Seq<char>, source: Seq<char>, index: nat, line: nat) -> Result<
    ExampleView,
    Seq<char>,
> {
    let ws = words(info);
    if !(ws.len() >= 4 && (ws[1] == "tenet:example"@ || ws[1] == "tenet:change"@) && !ws[0].contains(':')) {
        Err("expected LANGUAGE tenet:example expect=VERDICT path=PATH"@)
    } else {
        match options(ws.skip(2)) {
            Err(e) => Err(e),
            Ok(acc) => match verdict_named(lookup(acc, "expect"@)) {
                None => Err("expect must be pass, fail, not_applicable, or uncertain"@),
                Some(expected) => match lookup(acc, "path"@) {
                    None => Err("example requires path"@),
                    Some(path) => if !(path.len() > 0 && plain(path) && !path.contains('\\')) {
                        Err("example path must stay within its scope"@)
                    } else if blank(source) {
                        Err("example source is empty"@)
                    } else {
                        let named = ExampleView {
                            change: None,
                            name: match lookup(acc, "name"@) {
                                Some(n) => n,
                                None => "example-"@ + decimal(index),
                            },
                            path,
                            expected,
                            source,
                            line,
                        };
                        if ws[1] == "tenet:change"@ {
                            match change_of(json_fields(source)) {
                                Err(m) => Err(m),
                                Ok(c) => Ok(ExampleView { change: Some(c), ..named }),
                            }
                        } else {
                            Ok(named)
                        }
                    },
                },
            },
        }
    }
}

fn chars_contain(s: &[char], c: char) -> (r: bool)
    ensures
        r == s@.contains(c),
{
    let mut i: usize = 0;
    while i < s.len()
        invariant
            i <= s@.len(),
            forall|k: int| 0 <= k < i ==> s@[k] != c,
        decreases s@.len() - i,
    {
        if s[i] == c {
            assert(s@[i as int] == c);
            return true;
        }
        i += 1;
    }
    false
}

pub open spec fn pairs_view(v: Seq<(Vec<char>, Vec<char>)>) -> Seq<(Seq<char>, Seq<char>)> {
    v.map_values(|p: (Vec<char>, Vec<char>)| (p.0@, p.1@))
}

fn lookup_in(acc: &Vec<(Vec<char>, Vec<char>)>, key: &str) -> (r: Option<Vec<char>>)
    ensures
        match (r, lookup(pairs_view(acc@), key@)) {
            (Some(a), Some(b)) => a@ == b,
            (None, None) => true,
            _ => false,
        },
{
    let mut i = acc.len();
    while i > 0
        invariant
            i <= acc@.len(),
            lookup(pairs_view(acc@), key@) == lookup(pairs_view(acc@).take(i as int), key@),
        decreases i,
    {
        let ghost t = pairs_view(acc@).take(i as int);
        assert(t.drop_last() =~= pairs_view(acc@).take(i - 1));
        if is_text(&acc[i - 1].0, key) {
            return Some(acc[i - 1].1.clone());
        }
        i -= 1;
    }
    None
}

fn literal_with(s: &str, tail: &[char]) -> (r: Vec<char>)
    ensures
        r@ == s@ + tail@,
{
    let mut v = chars_of(s);
    let mut i: usize = 0;
    while i < tail.len()
        invariant
            i <= tail@.len(),
            v@ == s@ + tail@.take(i as int),
        decreases tail@.len() - i,
    {
        v.push(tail[i]);
        i += 1;
    }
    assert(tail@.take(tail@.len() as int) =~= tail@);
    v
}

proof fn lemma_options_err(all: Seq<Seq<char>>, j: int)
    requires
        0 <= j <= all.len(),
        options(all.take(j)) is Err,
    ensures
        options(all) == options(all.take(j)),
    decreases all.len() - j,
{
    if j < all.len() {
        assert(all.take(j + 1).drop_last() =~= all.take(j));
        lemma_options_err(all, j + 1);
    } else {
        assert(all.take(j) =~= all);
    }
}

fn options_of(ws: &Vec<Vec<char>>, from: usize) -> (r: Result<Vec<(Vec<char>, Vec<char>)>, Vec<char>>)
    requires
        from <= ws@.len(),
    ensures
        match (r, options(views(ws@).skip(from as int))) {
            (Ok(a), Ok(b)) => pairs_view(a@) == b,
            (Err(a), Err(b)) => a@ == b,
            _ => false,
        },
{
    let ghost all = views(ws@).skip(from as int);
    let mut acc: Vec<(Vec<char>, Vec<char>)> = Vec::new();
    let mut i = from;
    assert(all.take(0) =~= Seq::<Seq<char>>::empty());
    assert(pairs_view(acc@) =~= Seq::<(Seq<char>, Seq<char>)>::empty());
    while i < ws.len()
        invariant
            from <= i <= ws@.len(),
            all == views(ws@).skip(from as int),
            options(all.take(i - from)) == Ok::<Seq<(Seq<char>, Seq<char>)>, Seq<char>>(
                pairs_view(acc@),
            ),
        decreases ws@.len() - i,
    {
        let ghost t = all.take(i - from + 1);
        proof {
            assert(t.drop_last() =~= all.take(i - from));
            assert(t.last() == ws@[i as int]@);
        }
        let w = &ws[i];
        match split_once_of(w, '=') {
            None => {
                proof {
                    lemma_options_err(all, i - from + 1);
                }
                return Err(literal_with("invalid example option: ", w));
            },
            Some((k, v)) => {
                let known = is_text(&k, "expect") || is_text(&k, "path") || is_text(&k, "name");
                if !known {
                    proof {
                        lemma_options_err(all, i - from + 1);
                    }
                    return Err(literal_with("unknown example option: ", &k));
                }
                let prior = lookup_k(&acc, &k);
                if v.len() == 0 || prior {
                    proof {
                        lemma_options_err(all, i - from + 1);
                    }
                    return Err(literal_with("empty or duplicate example option: ", &k));
                }
                let ghost before = pairs_view(acc@);
                acc.push((k, v));
                proof {
                    assert(pairs_view(acc@) =~= before.push((acc@.last().0@, acc@.last().1@)));
                }
            },
        }
        i += 1;
    }
    proof {
        assert(all.take(ws@.len() - from) =~= all);
    }
    Ok(acc)
}

fn lookup_k(acc: &Vec<(Vec<char>, Vec<char>)>, key: &Vec<char>) -> (r: bool)
    ensures
        r == lookup(pairs_view(acc@), key@) is Some,
{
    let mut i = acc.len();
    while i > 0
        invariant
            i <= acc@.len(),
            lookup(pairs_view(acc@), key@) == lookup(pairs_view(acc@).take(i as int), key@),
        decreases i,
    {
        let ghost t = pairs_view(acc@).take(i as int);
        assert(t.drop_last() =~= pairs_view(acc@).take(i - 1));
        if same(&acc[i - 1].0, key) {
            return true;
        }
        i -= 1;
    }
    false
}

/// Reads a `tenet:example` fence: its info string `info`, its contents
/// `source`, its position `index` among the document's examples and its
/// document `line`.
pub fn parse_example(info: &[char], source: Vec<char>, index: usize, line: usize) -> (r: Result<
    Example,
    String,
>)
    ensures
        match (r, example_of(info@, source@, index as nat, line as nat)) {
            (Ok(e), Ok(v)) => e@ == v,
            (Err(m), Err(v)) => m@ == v,
            _ => false,
        },
{
    let ws = words_of(info);
    let fence = if ws.len() >= 4 {
        proof {
            assert(views(ws@)[1] == ws@[1]@);
            assert(views(ws@)[0] == ws@[0]@);
        }
        (is_text(&ws[1], "tenet:example") || is_text(&ws[1], "tenet:change")) && !chars_contain(&ws[0], ':')
    } else {
        false
    };
    if !fence {
        return Err(text("expected LANGUAGE tenet:example expect=VERDICT path=PATH"));
    }
    let acc = match options_of(&ws, 2) {
        Ok(acc) => acc,
        Err(e) => {
            return Err(string_of(&e));
        },
    };
    let expected = match lookup_in(&acc, "expect") {
        Some(v) => {
            if is_text(&v, "pass") {
                Verdict::Pass
            } else if is_text(&v, "fail") {
                Verdict::Fail
            } else if is_text(&v, "not_applicable") {
                Verdict::NotApplicable
            } else if is_text(&v, "uncertain") {
                Verdict::Uncertain
            } else {
                return Err(text("expect must be pass, fail, not_applicable, or uncertain"));
            }
        },
        None => {
            return Err(text("expect must be pass, fail, not_applicable, or uncertain"));
        },
    };
    let path = match lookup_in(&acc, "path") {
        Some(p) => p,
        None => {
            return Err(text("example requires path"));
        },
    };
    if !(path.len() > 0 && is_plain(&path) && !chars_contain(&path, '\\')) {
        return Err(text("example path must stay within its scope"));
    }
    if is_blank(&source) {
        return Err(text("example source is empty"));
    }
    let name = match lookup_in(&acc, "name") {
        Some(n) => string_of(&n),
        None => {
            let digits = decimal_of(index);
            string_of(&literal_with("example-", &digits))
        },
    };
    let body = string_of(&source);
    let change = if is_text(&ws[1], "tenet:change") {
        proof {
            assert(views(ws@)[1] == ws@[1]@);
        }
        match change_from(body.as_str()) {
            Ok(c) => Some(c),
            Err(e) => {
                return Err(e);
            },
        }
    } else {
        proof {
            assert(views(ws@)[1] == ws@[1]@);
        }
        None
    };
    Ok(Example { change, name, path: string_of(&path), expected, source: body, line })
}

fn other_field_in(f: &Vec<(String, Option<String>)>) -> (r: Option<String>)
    ensures
        opt_view(r) == other_field(fields_view(f@)),
{
    let ghost all = fields_view(f@);
    let mut i: usize = 0;
    assert(all.take(0) =~= Seq::<(Seq<char>, Option<Seq<char>>)>::empty());
    while i < f.len()
        invariant
            i <= f@.len(),
            all == fields_view(f@),
            other_field(all.take(i as int)) is None,
        decreases f@.len() - i,
    {
        assert(all.take(i + 1).drop_last() =~= all.take(i as int));
        let k = chars_of(f[i].0.as_str());
        if !(is_text(&k, "before") || is_text(&k, "after")) {
            proof {
                lemma_other_field_prefix(all, i as int + 1);
            }
            return Some(text(f[i].0.as_str()));
        }
        i += 1;
    }
    assert(all.take(f@.len() as int) =~= all);
    None
}

proof fn lemma_other_field_prefix(f: Seq<(Seq<char>, Option<Seq<char>>)>, n: int)
    requires
        0 <= n <= f.len(),
        other_field(f.take(n)) is Some,
    ensures
        other_field(f) == other_field(f.take(n)),
    decreases f.len() - n,
{
    if n < f.len() {
        assert(f.take(n + 1).drop_last() =~= f.take(n));
        lemma_other_field_prefix(f, n + 1);
    } else {
        assert(f.take(n) =~= f);
    }
}

fn field_in(f: &Vec<(String, Option<String>)>, k: &str) -> (r: Option<String>)
    ensures
        opt_view(r) == field(fields_view(f@), k@),
{
    let ghost all = fields_view(f@);
    let mut i = f.len();
    while i > 0
        invariant
            i <= f@.len(),
            all == fields_view(f@),
            field(all, k@) == field(all.take(i as int), k@),
        decreases i,
    {
        assert(all.take(i as int).drop_last() =~= all.take(i - 1));
        if is_text(&chars_of(f[i - 1].0.as_str()), k) {
            return match &f[i - 1].1 {
                Some(t) => Some(text(t.as_str())),
                None => None,
            };
        }
        i -= 1;
    }
    assert(all.take(0) =~= Seq::<(Seq<char>, Option<Seq<char>>)>::empty());
    None
}

/// Reads the JSON body of a `tenet:change` fence.
fn change_from(body: &str) -> (r: Result<ExampleChange, String>)
    ensures
        match (r, change_of(json_fields(body@))) {
            (Ok(c), Ok((b, a))) => opt_view(c.before) == b && opt_view(c.after) == a,
            (Err(m), Err(v)) => m@ == v,
            _ => false,
        },
{
    let f = match read_json_fields(body) {
        Ok(f) => f,
        Err(m) => {
            return Err(text_with("invalid change example: ", &chars_of(m.as_str())));
        },
    };
    if let Some(k) = other_field_in(&f) {
        return Err(text_with("unknown change field: ", &chars_of(k.as_str())));
    }
    let before = field_in(&f, "before");
    let after = field_in(&f, "after");
    if before.is_none() && after.is_none() {
        return Err(text("change example needs before or after"));
    }
    Ok(ExampleChange { before, after })
}


// ---------------------------------------------------------------------
// Sections and examples
// ---------------------------------------------------------------------

/// A document position: `offset + pos`, saturating at `usize::MAX`.
pub open spec fn at(offset: usize, pos: usize) -> usize {
    if offset + pos <= usize::MAX {
        (offset + pos) as usize
    } else {
        usize::MAX
    }
}

/// The number of line-feed bytes.
pub open spec fn newline_bytes(b: Seq<u8>) -> nat
    decreases b.len(),
{
    if b.len() == 0 {
        0
    } else {
        newline_bytes(b.drop_last()) + if b.last() == 10u8 { 1nat } else { 0nat }
    }
}

/// The document line that contains byte `pos`.
pub open spec fn line_at(doc: Seq<u8>, pos: usize) -> nat {
    newline_bytes(doc.take(if pos <= doc.len() { pos as int } else { doc.len() as int })) + 1
}

/// The state of the section and example reader.
pub struct ScanView {
    /// Finished sections: name and document byte range.
    pub sections: Seq<(Seq<char>, usize, usize)>,
    pub examples: Seq<ExampleView>,
    /// The text of an open top-level heading.
    pub heading: Option<Seq<char>>,
    /// The section being read: name and start.
    pub current: Option<(Seq<char>, usize)>,
    /// Block quote, list and item depth.
    pub nesting: nat,
    /// The example fence being read: info string, start and contents.
    pub example: Option<(Seq<char>, usize, Seq<char>)>,
}

pub open spec fn scan_start() -> ScanView {
    ScanView {
        sections: seq![],
        examples: seq![],
        heading: None,
        current: None,
        nesting: 0,
        example: None,
    }
}

pub open spec fn has_section(sections: Seq<(Seq<char>, usize, usize)>, name: Seq<char>) -> bool {
    exists|i: int| 0 <= i < sections.len() && #[trigger] sections[i].0 == name
}

pub open spec fn top_level(st: ScanView, level: u8) -> bool {
    (level == 1 || level == 2) && st.nesting == 0
}

/// Reads one event of the body that starts at document byte `offset`.
pub open spec fn scan_step(st: ScanView, sp: SpanView, doc: Seq<u8>, offset: usize) -> Result<
    ScanView,
    Seq<char>,
> {
    match sp.mark {
        MarkView::QuoteOpen | MarkView::ListOpen | MarkView::ItemOpen => Ok(
            ScanView { nesting: st.nesting + 1, ..st },
        ),
        MarkView::QuoteClose | MarkView::ListClose | MarkView::ItemClose => Ok(
            ScanView {
                nesting: if st.nesting > 0 {
                    (st.nesting - 1) as nat
                } else {
                    0
                },
                ..st
            },
        ),
        MarkView::HeadingOpen(l) => if top_level(st, l) {
            match st.current {
                Some((name, start)) => if has_section(st.sections, name) {
                    Err("duplicate section: "@ + name)
                } else {
                    Ok(
                        ScanView {
                            sections: st.sections.push((name, start, at(offset, sp.start))),
                            current: None,
                            heading: Some(seq![]),
                            ..st
                        },
                    )
                },
                None => Ok(ScanView { heading: Some(seq![]), ..st }),
            }
        } else {
            Ok(st)
        },
        MarkView::HeadingClose(l) => if top_level(st, l) {
            match st.heading {
                Some(name) => Ok(
                    ScanView { current: Some((name, at(offset, sp.end))), heading: None, ..st },
                ),
                None => Ok(st),
            }
        } else {
            Ok(st)
        },
        MarkView::Chars(t) => match st.heading {
            Some(h) => Ok(ScanView { heading: Some(h + t), ..st }),
            None => match st.example {
                Some((info, start, source)) => Ok(
                    ScanView { example: Some((info, start, source + t)), ..st },
                ),
                None => Ok(st),
            },
        },
        MarkView::InlineCode(t) => match st.heading {
            Some(h) => Ok(ScanView { heading: Some(h + t), ..st }),
            None => Ok(st),
        },
        MarkView::FenceOpen(info) => if has_run(info, "tenet:"@) {
            if st.current matches Some((name, _)) && name == "Examples"@ {
                Ok(ScanView { example: Some((info, at(offset, sp.start), seq![])), ..st })
            } else {
                Err("Tenet examples belong in ## Examples"@)
            }
        } else {
            Ok(st)
        },
        MarkView::BlockClose => match st.example {
            Some((info, start, source)) => match example_of(
                info,
                source,
                st.examples.len() + 1,
                line_at(doc, start),
            ) {
                Ok(e) => Ok(ScanView { examples: st.examples.push(e), example: None, ..st }),
                Err(m) => Err(m),
            },
            None => Ok(st),
        },
        MarkView::IndentOpen | MarkView::Other => Ok(st),
    }
}

/// Reads the events in order, stopping at the first problem.
pub open spec fn scan(spans: Seq<SpanView>, doc: Seq<u8>, offset: usize) -> Result<
    ScanView,
    Seq<char>,
>
    decreases spans.len(),
{
    if spans.len() == 0 {
        Ok(scan_start())
    } else {
        match scan(spans.drop_last(), doc, offset) {
            Ok(st) => scan_step(st, spans.last(), doc, offset),
            Err(e) => Err(e),
        }
    }
}

/// The name of the first example whose name an earlier example already has.
pub open spec fn first_repeat(names: Seq<Seq<char>>) -> Option<Seq<char>>
    decreases names.len(),
{
    if names.len() == 0 {
        None
    } else {
        match first_repeat(names.drop_last()) {
            Some(n) => Some(n),
            None => if names.drop_last().contains(names.last()) {
                Some(names.last())
            } else {
                None
            },
        }
    }
}

pub open spec fn example_names(v: Seq<ExampleView>) -> Seq<Seq<char>> {
    v.map_values(|e: ExampleView| e.name)
}

/// The sections and examples of a body that starts at document byte
/// `offset` of a document whose bytes are `doc`, or the first problem.
pub open spec fn outline(spans: Seq<SpanView>, doc: Seq<u8>, offset: usize) -> Result<
    (Seq<(Seq<char>, usize, usize)>, Seq<ExampleView>),
    Seq<char>,
> {
    match scan(spans, doc, offset) {
        Err(e) => Err(e),
        Ok(st) => {
            let closed = match st.current {
                Some((name, start)) => if has_section(st.sections, name) {
                    Err("duplicate section: "@ + name)
                } else {
                    Ok(st.sections.push((name, start, doc.len() as usize)))
                },
                None => Ok(st.sections),
            };
            match closed {
                Err(e) => Err(e),
                Ok(sections) => match first_repeat(example_names(st.examples)) {
                    Some(n) => Err("duplicate example name: "@ + n),
                    None => Ok((sections, st.examples)),
                },
            }
        },
    }
}

struct Scan {
    sections: Vec<(Vec<char>, usize, usize)>,
    examples: Vec<Example>,
    heading: Option<Vec<char>>,
    current: Option<(Vec<char>, usize)>,
    nesting: usize,
    example: Option<(Vec<char>, usize, Vec<char>)>,
}

pub open spec fn sections_view(v: Seq<(Vec<char>, usize, usize)>) -> Seq<(Seq<char>, usize, usize)> {
    v.map_values(|s: (Vec<char>, usize, usize)| (s.0@, s.1, s.2))
}

pub open spec fn chars_opt(o: Option<Vec<char>>) -> Option<Seq<char>> {
    match o {
        Some(v) => Some(v@),
        None => None,
    }
}

impl View for Scan {
    type V = ScanView;

    closed spec fn view(&self) -> ScanView {
        ScanView {
            sections: sections_view(self.sections@),
            examples: crate::contract::examples_view(self.examples@),
            heading: chars_opt(self.heading),
            current: match self.current {
                Some((n, s)) => Some((n@, s)),
                None => None,
            },
            nesting: self.nesting as nat,
            example: match self.example {
                Some((i, s, src)) => Some((i@, s, src@)),
                None => None,
            },
        }
    }
}

fn extend(v: &mut Vec<char>, s: &str)
    ensures
        final(v)@ == old(v)@ + s@,
{
    let c = chars_of(s);
    let ghost base = v@;
    let mut i: usize = 0;
    while i < c.len()
        invariant
            i <= c@.len(),
            v@ == base + c@.take(i as int),
        decreases c@.len() - i,
    {
        v.push(c[i]);
        i += 1;
    }
    assert(c@.take(c@.len() as int) =~= c@);
}

fn line_of(doc: &[u8], pos: usize) -> (n: usize)
    requires
        doc@.len() < usize::MAX,
    ensures
        n == line_at(doc@, pos),
{
    let end = if pos <= doc.len() { pos } else { doc.len() };
    let mut n: usize = 0;
    let mut i: usize = 0;
    while i < end
        invariant
            i <= end <= doc@.len(),
            n == newline_bytes(doc@.take(i as int)),
            n <= i,
        decreases end - i,
    {
        assert(doc@.take(i + 1).drop_last() =~= doc@.take(i as int));
        if doc[i] == 10u8 {
            n += 1;
        }
        i += 1;
    }
    n + 1
}

fn section_named(sections: &Vec<(Vec<char>, usize, usize)>, name: &Vec<char>) -> (r: bool)
    ensures
        r == has_section(sections_view(sections@), name@),
{
    let mut i: usize = 0;
    while i < sections.len()
        invariant
            i <= sections@.len(),
            forall|k: int| 0 <= k < i ==> sections_view(sections@)[k].0 != name@,
        decreases sections@.len() - i,
    {
        if same(&sections[i].0, name) {
            assert(sections_view(sections@)[i as int].0 == name@);
            return true;
        }
        i += 1;
    }
    false
}

fn sat(offset: usize, pos: usize) -> (r: usize)
    ensures
        r == at(offset, pos),
{
    offset.saturating_add(pos)
}

fn contains_name(names: &Vec<Example>, upto: usize, name: &String) -> (r: bool)
    requires
        upto <= names@.len(),
    ensures
        r == example_names(crate::contract::examples_view(names@)).take(upto as int).contains(
            name@,
        ),
{
    let ghost ns = example_names(crate::contract::examples_view(names@));
    let mut i: usize = 0;
    while i < upto
        invariant
            i <= upto <= names@.len(),
            ns == example_names(crate::contract::examples_view(names@)),
            forall|k: int| 0 <= k < i ==> ns[k] != name@,
        decreases upto - i,
    {
        if names[i].name == *name {
            assert(ns.take(upto as int)[i as int] == name@);
            return true;
        }
        i += 1;
    }
    false
}

/// Reads the sections and examples of a contract body from its parser
/// events `spans`; the body starts at byte `offset` of a document whose
/// bytes are `doc`.
pub fn outline_of(spans: &Vec<Span>, doc: &[u8], offset: usize) -> (r: Result<
    (Vec<(Vec<char>, usize, usize)>, Vec<Example>),
    String,
>)
    requires
        doc@.len() < usize::MAX,
    ensures
        match (r, outline(spans_view(spans@), doc@, offset)) {
            (Ok((s, e)), Ok((vs, ve))) => sections_view(s@) == vs
                && crate::contract::examples_view(e@) == ve,
            (Err(m), Err(v)) => m@ == v,
            _ => false,
        },
{
    let ghost all = spans_view(spans@);
    let mut st = Scan {
        sections: Vec::new(),
        examples: Vec::new(),
        heading: None,
        current: None,
        nesting: 0,
        example: None,
    };
    proof {
        assert(all.take(0) =~= Seq::<SpanView>::empty());
        assert(sections_view(st.sections@) =~= Seq::<(Seq<char>, usize, usize)>::empty());
        assert(crate::contract::examples_view(st.examples@) =~= Seq::<ExampleView>::empty());
        assert(st@ =~= scan_start());
    }
    let mut i: usize = 0;
    while i < spans.len()
        invariant
            i <= spans@.len(),
            all == spans_view(spans@),
            doc@.len() < usize::MAX,
            scan(all.take(i as int), doc@, offset) == Ok::<ScanView, Seq<char>>(st@),
            st.nesting <= i,
            st.examples@.len() <= i,
        decreases spans@.len() - i,
    {
        proof {
            assert(all.take(i + 1).drop_last() =~= all.take(i as int));
            assert(all.take(i + 1).last() == spans@[i as int]@);
        }
        let sp = &spans[i];
        match step(&mut st, sp, doc, offset) {
            Ok(()) => {},
            Err(m) => {
                proof {
                    lemma_scan_err(all, i as int + 1, doc@, offset);
                }
                return Err(m);
            },
        }
        i += 1;
    }
    proof {
        assert(all.take(spans@.len() as int) =~= all);
    }
    let ghost stv = st@;
    let Scan { mut sections, examples, current, .. } = st;
    assert(stv.examples == crate::contract::examples_view(examples@));
    assert(stv.sections == sections_view(sections@));
    match current {
        Some((name, start)) => {
            if section_named(&sections, &name) {
                return Err(text_with("duplicate section: ", &name));
            }
            let ghost before = sections_view(sections@);
            sections.push((name, start, doc.len()));
            proof {
                assert(sections_view(sections@) =~= before.push((name@, start, doc@.len() as usize)));
            }
        },
        None => {},
    }
    assert(match stv.current {
        Some((name, start)) => !has_section(stv.sections, name),
        None => true,
    });
    let ghost ns = example_names(crate::contract::examples_view(examples@));
    assert(scan(all, doc@, offset) == Ok::<ScanView, Seq<char>>(stv));
    let mut j: usize = 0;
    while j < examples.len()
        invariant
            j <= examples@.len(),
            scan(all, doc@, offset) == Ok::<ScanView, Seq<char>>(stv),
            stv.examples == crate::contract::examples_view(examples@),
            all == spans_view(spans@),
            match stv.current {
                Some((name, start)) => !has_section(stv.sections, name),
                None => true,
            },
            ns == example_names(crate::contract::examples_view(examples@)),
            first_repeat(ns.take(j as int)) is None,
        decreases examples@.len() - j,
    {
        proof {
            assert(ns.take(j + 1).drop_last() =~= ns.take(j as int));
        }
        if contains_name(&examples, j, &examples[j].name) {
            proof {
                assert(ns.take(j + 1).last() == examples@[j as int].name@);
                assert(ns.take(j + 1).drop_last().contains(ns.take(j + 1).last()));
                assert(first_repeat(ns.take(j + 1)) == Some(ns[j as int]));
                lemma_repeat_prefix(ns, j as int + 1);
                assert(scan(all, doc@, offset) == Ok::<ScanView, Seq<char>>(stv));
                assert(example_names(stv.examples) == ns);
                assert(first_repeat(example_names(stv.examples)) == Some(examples@[j as int].name@));
            }
            let nm = chars_of(examples[j].name.as_str());
            assert(nm@ == examples@[j as int].name@);
            return Err(text_with("duplicate example name: ", &chars_of(examples[j].name.as_str())));
        }
        j += 1;
    }
    proof {
        assert(ns.take(examples@.len() as int) =~= ns);
    }
    Ok((sections, examples))
}

proof fn lemma_scan_err(all: Seq<SpanView>, j: int, doc: Seq<u8>, offset: usize)
    requires
        0 <= j <= all.len(),
        scan(all.take(j), doc, offset) is Err,
    ensures
        scan(all, doc, offset) == scan(all.take(j), doc, offset),
    decreases all.len() - j,
{
    if j < all.len() {
        assert(all.take(j + 1).drop_last() =~= all.take(j));
        lemma_scan_err(all, j + 1, doc, offset);
    } else {
        assert(all.take(j) =~= all);
    }
}

proof fn lemma_repeat_prefix(ns: Seq<Seq<char>>, j: int)
    requires
        0 <= j <= ns.len(),
        first_repeat(ns.take(j)) is Some,
    ensures
        first_repeat(ns) == first_repeat(ns.take(j)),
    decreases ns.len() - j,
{
    if j < ns.len() {
        assert(ns.take(j + 1).drop_last() =~= ns.take(j));
        lemma_repeat_prefix(ns, j + 1);
    } else {
        assert(ns.take(j) =~= ns);
    }
}

/// Reads one event into the state.
fn step(st: &mut Scan, sp: &Span, doc: &[u8], offset: usize) -> (r: Result<(), String>)
    requires
        doc@.len() < usize::MAX,
        old(st).nesting < usize::MAX,
        old(st).examples@.len() < usize::MAX,
    ensures
        match (r, scan_step(old(st)@, sp@, doc@, offset)) {
            (Ok(()), Ok(v)) => final(st)@ == v,
            (Err(m), Err(v)) => m@ == v,
            _ => false,
        },
        final(st).nesting <= old(st).nesting + 1,
        final(st).examples@.len() <= old(st).examples@.len() + 1,
{
    let ghost before = st@;
    match &sp.mark {
        Mark::QuoteOpen | Mark::ListOpen | Mark::ItemOpen => {
            st.nesting = st.nesting + 1;
            assert(st@ =~= ScanView { nesting: before.nesting + 1, ..before });
        },
        Mark::QuoteClose | Mark::ListClose | Mark::ItemClose => {
            if st.nesting > 0 {
                st.nesting = st.nesting - 1;
            }
            assert(st@ =~= ScanView {
                nesting: if before.nesting > 0 { (before.nesting - 1) as nat } else { 0 },
                ..before
            });
        },
        Mark::HeadingOpen(l) => {
            if (*l == 1 || *l == 2) && st.nesting == 0 {
                match st.current.take() {
                    Some((name, start)) => {
                        if section_named(&st.sections, &name) {
                            return Err(text_with("duplicate section: ", &name));
                        }
                        let ghost secs = sections_view(st.sections@);
                        st.sections.push((name, start, sat(offset, sp.start)));
                        assert(sections_view(st.sections@) =~= secs.push(
                            (name@, start, at(offset, sp.start)),
                        ));
                    },
                    None => {},
                }
                st.heading = Some(Vec::new());
                assert(chars_opt(st.heading) =~= Some(Seq::<char>::empty()));
            }
        },
        Mark::HeadingClose(l) => {
            if (*l == 1 || *l == 2) && st.nesting == 0 {
                match st.heading.take() {
                    Some(name) => {
                        st.current = Some((name, sat(offset, sp.end)));
                    },
                    None => {},
                }
            }
        },
        Mark::Chars(t) => {
            match st.heading.take() {
                Some(mut h) => {
                    extend(&mut h, t.as_str());
                    st.heading = Some(h);
                },
                None => {
                    match st.example.take() {
                        Some((info, start, mut source)) => {
                            extend(&mut source, t.as_str());
                            st.example = Some((info, start, source));
                        },
                        None => {},
                    }
                },
            }
        },
        Mark::InlineCode(t) => {
            match st.heading.take() {
                Some(mut h) => {
                    extend(&mut h, t.as_str());
                    st.heading = Some(h);
                },
                None => {},
            }
        },
        Mark::FenceOpen(info) => {
            let info_chars = chars_of(info.as_str());
            let pat = chars_of("tenet:");
            if contains_run(&info_chars, &pat) {
                let ok = match &st.current {
                    Some((n, _)) => is_text(n, "Examples"),
                    None => false,
                };
                if !ok {
                    return Err(text("Tenet examples belong in ## Examples"));
                }
                st.example = Some((info_chars, sat(offset, sp.start), Vec::new()));
                assert(st@.example =~= Some((info@, at(offset, sp.start), Seq::<char>::empty())));
            }
        },
        Mark::BlockClose => {
            match st.example.take() {
                Some((info, start, source)) => {
                    let line = line_of(doc, start);
                    let index = st.examples.len() + 1;
                    match parse_example(&info, source, index, line) {
                        Ok(e) => {
                            let ghost ex = crate::contract::examples_view(st.examples@);
                            st.examples.push(e);
                            assert(crate::contract::examples_view(st.examples@) =~= ex.push(e@));
                        },
                        Err(m) => {
                            return Err(m);
                        },
                    }
                },
                None => {},
            }
        },
        Mark::IndentOpen | Mark::Other => {},
    }
    Ok(())
}

} // verus!
