//! Numbered Markdown requirements and their isolated evaluation examples.
use vstd::prelude::*;
use core::ops::Range;

verus! {

/// The expected judgment of an example.
#[derive(Clone, Copy, Debug, PartialEq, Eq, Structural)]
pub enum Verdict {
    Pass,
    Fail,
    NotApplicable,
    Uncertain,
}

/// The before and after contents of a change example.
#[derive(Debug)]
pub struct ExampleChange {
    pub before: Option<String>,
    pub after: Option<String>,
}

/// A `tenet:example` or `tenet:change` code fence of a contract.
#[derive(Debug)]
pub struct Example {
    pub change: Option<ExampleChange>,
    pub name: String,
    /// Relative to the contract's scope.
    pub path: String,
    pub expected: Verdict,
    pub source: String,
    /// The document line of the fence.
    pub line: usize,
}

pub struct ExampleView {
    /// The contents before and after, for a change example.
    pub change: Option<(Option<Seq<char>>, Option<Seq<char>>)>,
    pub name: Seq<char>,
    pub path: Seq<char>,
    pub expected: Verdict,
    pub source: Seq<char>,
    pub line: nat,
}

impl View for Example {
    type V = ExampleView;

    open spec fn view(&self) -> ExampleView {
        ExampleView {
            change: match self.change {
                Some(c) => Some((opt_view(c.before), opt_view(c.after))),
                None => None,
            },
            name: self.name@,
            path: self.path@,
            expected: self.expected,
            source: self.source@,
            line: self.line as nat,
        }
    }
}

/// A parsed contract document. Paths are relative to the project root and
/// written with `/` between their components.
#[derive(Debug)]
pub struct Contract {
    pub name: String,
    pub message: String,
    pub number: u32,
    /// `SCOPE/.contracts/NNN-name/CONTRACT.md`.
    pub path: String,
    /// The directory whose files the contract covers (`""` for the root).
    pub scope: String,
    /// The trimmed text of the `## Rules` section.
    pub rules: String,
    /// The trimmed document text after the frontmatter.
    pub body: String,
    pub applies_to: Option<String>,
    pub examples: Vec<Example>,
    /// The document line on which the rules begin.
    pub rules_line: usize,
    /// The byte range of the rules within the document.
    pub rules_span: Range<usize>,
    /// The BLAKE3 digest of the document, in lowercase hexadecimal.
    pub hash: String,
    pub document: String,
}

impl Clone for ExampleChange {
    fn clone(&self) -> (r: Self)
        ensures
            r == *self,
    {
        ExampleChange { before: self.before.clone(), after: self.after.clone() }
    }
}

impl Clone for Example {
    fn clone(&self) -> (r: Self)
        ensures
            r == *self,
    {
        Example {
            change: match &self.change {
                Some(c) => Some(c.clone()),
                None => None,
            },
            name: self.name.clone(),
            path: self.path.clone(),
            expected: self.expected,
            source: self.source.clone(),
            line: self.line,
        }
    }
}

impl Clone for Contract {
    fn clone(&self) -> (r: Self)
        ensures
            r@ == self@,
            r.examples@ == self.examples@,
            r.rules_span == self.rules_span,
    {
        Contract {
            name: self.name.clone(),
            message: self.message.clone(),
            number: self.number,
            path: self.path.clone(),
            scope: self.scope.clone(),
            rules: self.rules.clone(),
            body: self.body.clone(),
            applies_to: self.applies_to.clone(),
            examples: self.examples.clone(),
            rules_line: self.rules_line,
            rules_span: Range { start: self.rules_span.start, end: self.rules_span.end },
            hash: self.hash.clone(),
            document: self.document.clone(),
        }
    }
}

pub struct ContractView {
    pub name: Seq<char>,
    pub message: Seq<char>,
    pub number: u32,
    pub path: Seq<char>,
    pub scope: Seq<char>,
    pub rules: Seq<char>,
    pub body: Seq<char>,
    pub applies_to: Option<Seq<char>>,
    pub examples: Seq<ExampleView>,
    pub rules_line: nat,
    pub rules_start: nat,
    pub rules_end: nat,
    pub hash: Seq<char>,
    pub document: Seq<char>,
}

pub open spec fn opt_view(o: Option<String>) -> Option<Seq<char>> {
    match o {
        Some(s) => Some(s@),
        None => None,
    }
}

pub open spec fn examples_view(v: Seq<Example>) -> Seq<ExampleView> {
    v.map_values(|e: Example| e@)
}

impl View for Contract {
    type V = ContractView;

    open spec fn view(&self) -> ContractView {
        ContractView {
            name: self.name@,
            message: self.message@,
            number: self.number,
            path: self.path@,
            scope: self.scope@,
            rules: self.rules@,
            body: self.body@,
            applies_to: opt_view(self.applies_to),
            examples: examples_view(self.examples@),
            rules_line: self.rules_line as nat,
            rules_start: self.rules_span.start as nat,
            rules_end: self.rules_span.end as nat,
            hash: self.hash@,
            document: self.document@,
        }
    }
}

/// A problem in a contract document, at a line of it.
#[derive(Debug)]
pub struct DocumentError {
    pub path: String,
    pub line: usize,
    pub message: String,
}

impl DocumentError {
    /// `PATH:LINE: MESSAGE`, the text that diagnostics show.
    pub fn describe(&self) -> (r: String)
        ensures
            r@ == self.path@ + seq![':'] + crate::text::decimal(self.line as nat) + ": "@
                + self.message@,
    {
        let mut v = crate::text::chars_of(self.path.as_str());
        v.push(':');
        let digits = crate::text::decimal_of(self.line);
        let mut i: usize = 0;
        let ghost base = v@;
        while i < digits.len()
            invariant
                i <= digits@.len(),
                v@ == base + digits@.take(i as int),
            decreases digits@.len() - i,
        {
            v.push(digits[i]);
            i += 1;
        }
        assert(digits@.take(digits@.len() as int) =~= digits@);
        let rest = crate::text::chars_of(": ");
        let msg = crate::text::chars_of(self.message.as_str());
        let ghost base2 = v@;
        let mut j: usize = 0;
        while j < rest.len()
            invariant
                j <= rest@.len(),
                v@ == base2 + rest@.take(j as int),
            decreases rest@.len() - j,
        {
            v.push(rest[j]);
            j += 1;
        }
        assert(rest@.take(rest@.len() as int) =~= rest@);
        let ghost base3 = v@;
        let mut k: usize = 0;
        while k < msg.len()
            invariant
                k <= msg@.len(),
                v@ == base3 + msg@.take(k as int),
            decreases msg@.len() - k,
        {
            v.push(msg[k]);
            k += 1;
        }
        assert(msg@.take(msg@.len() as int) =~= msg@);
        crate::text::string_of(&v)
    }
}

} // verus!
