//! Fixture evaluations: which cases of a fixture run, what each expects,
//! and how results are scored.
use vstd::prelude::*;
use crate::order::{ascending, has_key, kv, kv_keys, put_sorted, strs, table};
use crate::parse::blake3_digest;
use crate::report::{ContractStatus, Summary};
use crate::text::{append, chars_of, is_text, string_of, text, text_with};

verus! {

broadcast use vstd::seq_lib::group_seq_properties;

/// One case of a fixture manifest.
#[derive(Clone, Debug)]
pub struct Case {
    pub name: String,
    pub patch: Option<String>,
    pub contract: Option<String>,
    pub context: Vec<String>,
    /// `development` or `heldout`.
    pub split: String,
    /// The expected conclusion of each contract, in name order.
    pub expect: Vec<(String, ContractStatus)>,
}

/// A case name: ASCII letters, digits, `-` and `_`, at least one.
pub open spec fn case_name(n: Seq<char>) -> bool {
    n.len() > 0 && forall|k: int| 0 <= k < n.len() ==> {
        let c = #[trigger] n[k];
        ('a' <= c && c <= 'z') || ('A' <= c && c <= 'Z') || ('0' <= c && c <= '9') || c == '-' || c == '_'
    }
}

pub fn valid_case_name(n: &str) -> (r: bool)
    ensures
        r == case_name(n@),
{
    let v = chars_of(n);
    if v.len() == 0 {
        return false;
    }
    let mut i: usize = 0;
    while i < v.len()
        invariant
            i <= v@.len(),
            v@ == n@,
            forall|k: int| 0 <= k < i ==> {
                let c = #[trigger] v@[k];
                ('a' <= c && c <= 'z') || ('A' <= c && c <= 'Z') || ('0' <= c && c <= '9') || c == '-' || c == '_'
            },
        decreases v@.len() - i,
    {
        let c = v[i];
        if !(('a' <= c && c <= 'z') || ('A' <= c && c <= 'Z') || ('0' <= c && c <= '9') || c == '-' || c == '_') {
            return false;
        }
        i += 1;
    }
    true
}

/// A split that a case may name.
pub open spec fn known_split(s: Seq<char>) -> bool {
    s == "development"@ || s == "heldout"@
}

/// The id of a case: the fixture's prefix, `/`, and the case's name.
pub open spec fn case_id(prefix: Seq<char>, name: Seq<char>) -> Seq<char> {
    prefix + "/"@ + name
}

/// Whether a case is selected: by split (unless `all`), by name or id,
/// and, when one contract is selected, by expecting a conclusion of it.
pub open spec fn chosen(
    prefix: Seq<char>,
    c: Case,
    split: Seq<char>,
    case: Option<Seq<char>>,
    contract: Option<Seq<char>>,
) -> bool {
    &&& (split == "all"@ || c.split@ == split)
    &&& (case matches Some(n) ==> (n == c.name@ || n == case_id(prefix, c.name@)))
    &&& (contract matches Some(k) ==> exists|i: int| has_key(kv(c.expect@), i, k))
}

/// What a selected case expects: with one contract selected, only that
/// contract's conclusion.
pub open spec fn narrowed(expect: Seq<(Seq<char>, ContractStatus)>, contract: Option<Seq<char>>) -> Seq<(Seq<char>, ContractStatus)> {
    match contract {
        Some(k) => only(expect, k),
        None => expect,
    }
}

/// The entries with key `k`, in order.
pub open spec fn only(expect: Seq<(Seq<char>, ContractStatus)>, k: Seq<char>) -> Seq<(Seq<char>, ContractStatus)>
    decreases expect.len(),
{
    if expect.len() == 0 {
        seq![]
    } else if expect.last().0 == k {
        only(expect.drop_last(), k).push(expect.last())
    } else {
        only(expect.drop_last(), k)
    }
}

/// The outcome of reading one manifest's cases from case `i` on, with the
/// names seen so far: the error of the first invalid case, or the
/// selected cases.
pub open spec fn select_from(
    prefix: Seq<char>,
    cases: Seq<Case>,
    i: int,
    seen: Set<Seq<char>>,
    split: Seq<char>,
    case: Option<Seq<char>>,
    contract: Option<Seq<char>>,
) -> Result<Seq<Picked>, Seq<char>>
    decreases cases.len() - i,
{
    if i < 0 || i >= cases.len() {
        Ok(seq![])
    } else {
        let c = cases[i];
        let id = case_id(prefix, c.name@);
        if !case_name(c.name@) {
            Err("invalid case name"@)
        } else if seen.contains(c.name@) {
            Err("duplicate case: "@ + c.name@)
        } else if !known_split(c.split@) {
            Err("invalid split"@)
        } else if !chosen(prefix, c, split, case, contract) {
            select_from(prefix, cases, i + 1, seen.insert(c.name@), split, case, contract)
        } else {
            let expect = narrowed(kv(c.expect@), contract);
            let picked = match contract {
                Some(k) => Some(k),
                None => crate::contract::opt_view(c.contract),
            };
            if expect.len() == 0 {
                Err("no expectations: "@ + id)
            } else {
                match select_from(prefix, cases, i + 1, seen.insert(c.name@), split, case, contract) {
                    Ok(rest) => Ok(
                        seq![
                            Picked {
                                id,
                                name: c.name@,
                                patch: crate::contract::opt_view(c.patch),
                                contract: picked,
                                context: strs(c.context@),
                                split: c.split@,
                                expect,
                            },
                        ] + rest,
                    ),
                    Err(e) => Err(e),
                }
            }
        }
    }
}

/// A case selected from a fixture, with its id.
pub struct Selected {
    pub id: String,
    pub case: Case,
}

/// A selected case as the selection describes it: its id, and the case as
/// written except for the contract and expectations that a selected
/// contract narrows.
pub struct Picked {
    pub id: Seq<char>,
    pub name: Seq<char>,
    pub patch: Option<Seq<char>>,
    pub contract: Option<Seq<char>>,
    pub context: Seq<Seq<char>>,
    pub split: Seq<char>,
    pub expect: Seq<(Seq<char>, ContractStatus)>,
}

pub open spec fn picked_of(s: Selected) -> Picked {
    Picked {
        id: s.id@,
        name: s.case.name@,
        patch: crate::contract::opt_view(s.case.patch),
        contract: crate::contract::opt_view(s.case.contract),
        context: strs(s.case.context@),
        split: s.case.split@,
        expect: kv(s.case.expect@),
    }
}

pub open spec fn selected_view(v: Seq<Selected>) -> Seq<Picked> {
    v.map_values(|s: Selected| picked_of(s))
}

fn copy_strings(v: &Vec<String>) -> (r: Vec<String>)
    ensures
        strs(r@) == strs(v@),
{
    let mut out: Vec<String> = Vec::new();
    let mut i: usize = 0;
    while i < v.len()
        invariant
            i <= v@.len(),
            strs(out@) == strs(v@).take(i as int),
        decreases v@.len() - i,
    {
        let ghost ov = strs(out@);
        out.push(text(v[i].as_str()));
        assert(strs(out@) =~= ov.push(v@[i as int]@));
        assert(strs(v@).take(i + 1) =~= strs(v@).take(i as int).push(v@[i as int]@));
        i += 1;
    }
    assert(strs(v@).take(v@.len() as int) =~= strs(v@));
    out
}

fn expects(expect: &Vec<(String, ContractStatus)>, k: &str) -> (r: bool)
    ensures
        r == exists|i: int| has_key(kv(expect@), i, k@),
{
    let mut i: usize = 0;
    while i < expect.len()
        invariant
            i <= expect@.len(),
            forall|j: int| 0 <= j < i ==> !has_key(kv(expect@), j, k@),
        decreases expect@.len() - i,
    {
        if is_text(&chars_of(expect[i].0.as_str()), k) {
            assert(has_key(kv(expect@), i as int, k@));
            return true;
        }
        i += 1;
    }
    false
}

fn narrow(expect: &Vec<(String, ContractStatus)>, k: &str) -> (r: Vec<(String, ContractStatus)>)
    ensures
        kv(r@) == only(kv(expect@), k@),
{
    let ghost all = kv(expect@);
    let mut out: Vec<(String, ContractStatus)> = Vec::new();
    let mut i: usize = 0;
    assert(all.take(0) =~= Seq::<(Seq<char>, ContractStatus)>::empty());
    assert(kv(out@) =~= Seq::<(Seq<char>, ContractStatus)>::empty());
    while i < expect.len()
        invariant
            i <= expect@.len(),
            all == kv(expect@),
            kv(out@) == only(all.take(i as int), k@),
        decreases expect@.len() - i,
    {
        assert(all.take(i + 1).drop_last() =~= all.take(i as int));
        if is_text(&chars_of(expect[i].0.as_str()), k) {
            let ghost ov = kv(out@);
            out.push((text(expect[i].0.as_str()), expect[i].1));
            assert(kv(out@) =~= ov.push(all[i as int]));
        }
        i += 1;
    }
    assert(all.take(expect@.len() as int) =~= all);
    out
}

fn named_in(names: &Vec<String>, n: &str) -> (r: bool)
    ensures
        r == strs(names@).contains(n@),
{
    crate::discovery::listed(names, n)
}

fn copy_expect(expect: &Vec<(String, ContractStatus)>) -> (r: Vec<(String, ContractStatus)>)
    ensures
        kv(r@) == kv(expect@),
{
    let mut out: Vec<(String, ContractStatus)> = Vec::new();
    let mut i: usize = 0;
    while i < expect.len()
        invariant
            i <= expect@.len(),
            kv(out@) == kv(expect@).take(i as int),
        decreases expect@.len() - i,
    {
        let ghost ov = kv(out@);
        out.push((text(expect[i].0.as_str()), expect[i].1));
        assert(kv(out@) =~= ov.push(kv(expect@)[i as int]));
        assert(kv(expect@).take(i + 1) =~= kv(expect@).take(i as int).push(kv(expect@)[i as int]));
        i += 1;
    }
    assert(kv(expect@).take(expect@.len() as int) =~= kv(expect@));
    out
}

fn copy_opt(s: &Option<String>) -> (r: Option<String>)
    ensures
        crate::contract::opt_view(r) == crate::contract::opt_view(*s),
{
    match s {
        Some(t) => Some(text(t.as_str())),
        None => None,
    }
}

/// Reads the cases of one fixture manifest: each needs a valid name that
/// no earlier case has, and a known split; the selected ones need an
/// expectation. A manifest without cases is an error.
pub fn select_cases(
    prefix: &str,
    cases: Vec<Case>,
    split: &str,
    case: Option<&str>,
    contract: Option<&str>,
) -> (r: Result<Vec<Selected>, String>)
    ensures
        cases@.len() == 0 ==> (r matches Err(e) && e@ == "empty fixture: "@ + prefix@),
        cases@.len() > 0 ==> match select_from(
            prefix@,
            cases@,
            0,
            Set::empty(),
            split@,
            match case {
                Some(n) => Some(n@),
                None => None,
            },
            match contract {
                Some(k) => Some(k@),
                None => None,
            },
        ) {
            Ok(v) => (r matches Ok(s) && selected_view(s@) == v),
            Err(m) => (r matches Err(e) && e@ == m),
        },
{
    if cases.len() == 0 {
        return Err(text_with("empty fixture: ", &chars_of(prefix)));
    }
    let ghost sc = match case {
        Some(n) => Some(n@),
        None => None::<Seq<char>>,
    };
    let ghost sk = match contract {
        Some(k) => Some(k@),
        None => None::<Seq<char>>,
    };
    let ghost all = cases@;
    let mut names: Vec<String> = Vec::new();
    let mut out: Vec<Selected> = Vec::new();
    let mut i: usize = 0;
    assert(selected_view(out@) =~= Seq::<Picked>::empty());
    assert(Set::new(|x: Seq<char>| strs(names@).contains(x)) =~= Set::<Seq<char>>::empty());
    proof {
        match select_from(prefix@, all, 0, Set::empty(), split@, sc, sk) {
            Ok(rest) => {
                assert(selected_view(out@) + rest =~= rest);
            },
            Err(_) => {},
        }
    }
    while i < cases.len()
        invariant
            i <= cases@.len(),
            all == cases@,
            cases@.len() > 0,
            sc == match case {
                Some(n) => Some(n@),
                None => None::<Seq<char>>,
            },
            sk == match contract {
                Some(k) => Some(k@),
                None => None::<Seq<char>>,
            },
            forall|x: Seq<char>| strs(names@).contains(x) <==> exists|j: int| 0 <= j < i && #[trigger] all[j].name@ == x,
            select_from(prefix@, all, 0, Set::empty(), split@, sc, sk) == match select_from(
                prefix@,
                all,
                i as int,
                Set::new(|x: Seq<char>| strs(names@).contains(x)),
                split@,
                sc,
                sk,
            ) {
                Ok(rest) => Ok(selected_view(out@) + rest),
                Err(e) => Err(e),
            },
        decreases cases@.len() - i,
    {
        let ghost seen = Set::new(|x: Seq<char>| strs(names@).contains(x));
        let c = &cases[i];
        assert(c == all[i as int]);
        let name = c.name.as_str();
        if !valid_case_name(name) {
            let e = text("invalid case name");
            assert(select_from(prefix@, all, i as int, seen, split@, sc, sk) == Err::<Seq<Picked>, Seq<char>>(e@));
            return Err(e);
        }
        if named_in(&names, name) {
            let e = text_with("duplicate case: ", &chars_of(name));
            assert(seen.contains(name@));
            assert(select_from(prefix@, all, i as int, seen, split@, sc, sk) == Err::<Seq<Picked>, Seq<char>>(e@));
            return Err(e);
        }
        let split_ok = is_text(&chars_of(c.split.as_str()), "development") || is_text(&chars_of(c.split.as_str()), "heldout");
        if !split_ok {
            return Err(text("invalid split"));
        }
        let ghost names0 = strs(names@);
        names.push(text(name));
        proof {
            assert(strs(names@) =~= names0.push(name@));
            assert(Set::new(|x: Seq<char>| strs(names@).contains(x)) =~= seen.insert(name@));
            assert forall|x: Seq<char>| strs(names@).contains(x) <== exists|j: int| 0 <= j < i + 1 && #[trigger] all[j].name@ == x by {
                if exists|j: int| 0 <= j < i + 1 && #[trigger] all[j].name@ == x {
                    let j = choose|j: int| 0 <= j < i + 1 && #[trigger] all[j].name@ == x;
                    if j < i {
                        assert(names0.contains(x));
                    } else {
                        assert(strs(names@).last() == x);
                    }
                }
            }
            assert forall|x: Seq<char>| strs(names@).contains(x) implies exists|j: int| 0 <= j < i + 1 && #[trigger] all[j].name@ == x by {
                if names0.contains(x) {
                } else {
                    assert(x == name@);
                    assert(all[i as int].name@ == x);
                }
            }
        }
        let id = {
            let mut v = chars_of(prefix);
            append(&mut v, "/");
            append(&mut v, name);
            string_of(&v)
        };
        let split_pass = is_text(&chars_of(split), "all") || is_text(&chars_of(c.split.as_str()), split);
        let case_pass = match case {
            Some(n) => is_text(&chars_of(n), name) || is_text(&chars_of(n), id.as_str()),
            None => true,
        };
        let contract_pass = match contract {
            Some(k) => expects(&c.expect, k),
            None => true,
        };
        let ghost next = Set::new(|x: Seq<char>| strs(names@).contains(x));
        assert(id@ == case_id(prefix@, name@));
        assert((split_pass && case_pass && contract_pass) == chosen(prefix@, all[i as int], split@, sc, sk));
        if split_pass && case_pass && contract_pass {
            let (expect, picked) = match contract {
                Some(k) => (narrow(&c.expect, k), Some(text(k))),
                None => (copy_expect(&c.expect), copy_opt(&c.contract)),
            };
            assert(kv(expect@) == narrowed(kv(all[i as int].expect@), sk));
            if expect.len() == 0 {
                let e = text_with("no expectations: ", &chars_of(id.as_str()));
                assert(select_from(prefix@, all, i as int, seen, split@, sc, sk) == Err::<Seq<Picked>, Seq<char>>(e@));
                return Err(e);
            }
            let chosen_case = Case {
                name: text(name),
                patch: copy_opt(&c.patch),
                contract: picked,
                context: copy_strings(&c.context),
                split: text(c.split.as_str()),
                expect,
            };
            let ghost ov = selected_view(out@);
            let chosen = Selected { id, case: chosen_case };
            let ghost entry = picked_of(chosen);
            out.push(chosen);
            proof {
                assert(selected_view(out@) =~= ov.push(entry));
                match select_from(prefix@, all, i + 1, next, split@, sc, sk) {
                    Ok(rest) => {
                        assert(ov + (seq![entry] + rest) =~= ov.push(entry) + rest);
                    },
                    Err(_) => {},
                }
            }
        }
        i += 1;
    }
    Ok(out)
}


/// A selected case needs at least one selected case among all fixtures.
pub fn check_any_cases(count: usize) -> (r: Result<(), String>)
    ensures
        r is Ok <==> count > 0,
        r matches Err(e) ==> e@ == "no fixture cases selected"@,
{
    if count > 0 {
        Ok(())
    } else {
        Err(text("no fixture cases selected"))
    }
}

/// A fixture path names its input within the fixture directory: normal
/// components only.
pub fn check_fixture_path(path: &str) -> (r: Result<(), String>)
    ensures
        r is Ok <==> crate::paths::plain(path@),
        r matches Err(e) ==> e@ == "fixture path must stay within its directory"@,
{
    if crate::paths::is_plain(&chars_of(path)) {
        Ok(())
    } else {
        Err(text("fixture path must stay within its directory"))
    }
}

/// A resolved fixture input stays inside its fixture directory.
pub fn check_inside(resolved: &str, root: &str) -> (r: Result<(), String>)
    ensures
        r is Ok <==> crate::paths::under(resolved@, root@),
        r matches Err(e) ==> e@ == "fixture input escapes its directory"@,
{
    if crate::paths::starts_with(resolved, root) {
        Ok(())
    } else {
        Err(text("fixture input escapes its directory"))
    }
}

/// Whether an expected conclusion can come from a run in the given mode:
/// a diff run never verifies, a full run never preserves or leaves
/// unaffected.
pub open spec fn fits_mode(status: ContractStatus, diff: bool) -> bool {
    if diff {
        status != ContractStatus::Verified
    } else {
        status != ContractStatus::Preserved && status != ContractStatus::Unaffected
    }
}

/// The names of the contracts a plan selected.
pub open spec fn contract_names(contracts: Seq<crate::contract::Contract>) -> Set<Seq<char>> {
    Set::new(|n: Seq<char>| exists|i: int| 0 <= i < contracts.len() && #[trigger] contracts[i].name@ == n)
}

/// The contracts a case names in its expectations.
pub open spec fn expected_names(expect: Seq<(Seq<char>, ContractStatus)>) -> Set<Seq<char>> {
    Set::new(|n: Seq<char>| exists|i: int| has_key(expect, i, n))
}

fn has_contract(contracts: &Vec<crate::contract::Contract>, n: &str) -> (r: bool)
    ensures
        r == contract_names(contracts@).contains(n@),
{
    let mut i: usize = 0;
    while i < contracts.len()
        invariant
            i <= contracts@.len(),
            forall|j: int| 0 <= j < i ==> #[trigger] contracts@[j].name@ != n@,
        decreases contracts@.len() - i,
    {
        if is_text(&chars_of(contracts[i].name.as_str()), n) {
            return true;
        }
        i += 1;
    }
    false
}

/// Checks a case's expectations against the contracts its plan selected:
/// they name exactly those contracts, and each expected conclusion can
/// come from a run in the case's mode.
pub fn check_expectations(
    id: &str,
    contracts: &Vec<crate::contract::Contract>,
    expect: &Vec<(String, ContractStatus)>,
    diff: bool,
) -> (r: Result<(), String>)
    ensures
        contract_names(contracts@) != expected_names(kv(expect@)) ==> (r matches Err(e) && e@ == id@
            + ": expectations must name every selected contract exactly"@),
        contract_names(contracts@) == expected_names(kv(expect@)) ==> match r {
            Ok(()) => forall|i: int| 0 <= i < expect@.len() ==> fits_mode(#[trigger] expect@[i].1, diff),
            Err(e) => (exists|i: int| 0 <= i < expect@.len() && !fits_mode(#[trigger] expect@[i].1, diff))
                && e@ == id@ + ": expectation does not match full/diff mode"@,
        },
{
    let mut same = true;
    let mut i: usize = 0;
    while i < contracts.len()
        invariant
            i <= contracts@.len(),
            same == forall|j: int| 0 <= j < i ==> expected_names(kv(expect@)).contains(#[trigger] contracts@[j].name@),
        decreases contracts@.len() - i,
    {
        if !expects(expect, contracts[i].name.as_str()) {
            same = false;
        }
        i += 1;
    }
    let mut k: usize = 0;
    while k < expect.len()
        invariant
            k <= expect@.len(),
            same == ((forall|j: int| 0 <= j < contracts@.len() ==> expected_names(kv(expect@)).contains(#[trigger] contracts@[j].name@))
                && forall|j: int| 0 <= j < k ==> contract_names(contracts@).contains(#[trigger] kv(expect@)[j].0)),
        decreases expect@.len() - k,
    {
        assert(kv(expect@)[k as int].0 == expect@[k as int].0@);
        if !has_contract(contracts, expect[k].0.as_str()) {
            same = false;
        }
        k += 1;
    }
    proof {
        let a = contract_names(contracts@);
        let b = expected_names(kv(expect@));
        if same {
            assert forall|n: Seq<char>| a.contains(n) <==> b.contains(n) by {
                if a.contains(n) {
                    let j = choose|j: int| 0 <= j < contracts@.len() && #[trigger] contracts@[j].name@ == n;
                    assert(b.contains(contracts@[j].name@));
                }
                if b.contains(n) {
                    let j = choose|j: int| has_key(kv(expect@), j, n);
                    assert(a.contains(kv(expect@)[j].0));
                }
            }
            assert(a =~= b);
        } else {
            if a == b {
                assert forall|j: int| 0 <= j < contracts@.len() implies b.contains(#[trigger] contracts@[j].name@) by {
                    assert(a.contains(contracts@[j].name@));
                }
                assert forall|j: int| 0 <= j < expect@.len() implies a.contains(#[trigger] kv(expect@)[j].0) by {
                    assert(has_key(kv(expect@), j, kv(expect@)[j].0));
                    assert(b.contains(kv(expect@)[j].0));
                }
            }
        }
    }
    if !same {
        return Err(text_with(id, &chars_of(": expectations must name every selected contract exactly")));
    }
    let mut m: usize = 0;
    while m < expect.len()
        invariant
            m <= expect@.len(),
            contract_names(contracts@) == expected_names(kv(expect@)),
            forall|j: int| 0 <= j < m ==> fits_mode(#[trigger] expect@[j].1, diff),
        decreases expect@.len() - m,
    {
        let status = expect[m].1;
        let ok = if diff {
            status != ContractStatus::Verified
        } else {
            status != ContractStatus::Preserved && status != ContractStatus::Unaffected
        };
        if !ok {
            return Err(text_with(id, &chars_of(": expectation does not match full/diff mode")));
        }
        m += 1;
    }
    Ok(())
}

// ---------------------------------------------------------------------
// Results
// ---------------------------------------------------------------------

/// The value of the first entry with key `k`.
pub open spec fn lookup(e: Seq<(Seq<char>, ContractStatus)>, k: Seq<char>) -> Option<ContractStatus>
    decreases e.len(),
{
    if e.len() == 0 {
        None
    } else if e[0].0 == k {
        Some(e[0].1)
    } else {
        lookup(e.drop_first(), k)
    }
}

/// How many expected conclusions the actual ones match.
pub open spec fn hits(expected: Seq<(Seq<char>, ContractStatus)>, actual: Seq<(Seq<char>, ContractStatus)>) -> nat
    decreases expected.len(),
{
    if expected.len() == 0 {
        0
    } else {
        hits(expected.drop_last(), actual) + if lookup(actual, expected.last().0) == Some(expected.last().1) {
            1nat
        } else {
            0nat
        }
    }
}

proof fn lemma_hits_bound(expected: Seq<(Seq<char>, ContractStatus)>, actual: Seq<(Seq<char>, ContractStatus)>)
    ensures
        hits(expected, actual) <= expected.len(),
    decreases expected.len(),
{
    if expected.len() > 0 {
        lemma_hits_bound(expected.drop_last(), actual);
    }
}

/// The outcome of one fixture case: what it expected, what the run
/// concluded (both in contract name order), and the error that kept it
/// from completing, if any.
pub struct CaseResult {
    pub case: String,
    pub expected: Vec<(String, ContractStatus)>,
    pub actual: Vec<(String, ContractStatus)>,
    pub error: Option<String>,
    pub summary: Summary,
}

fn find_status(actual: &Vec<(String, ContractStatus)>, k: &str) -> (r: Option<ContractStatus>)
    ensures
        r == lookup(kv(actual@), k@),
{
    let ghost all = kv(actual@);
    let mut i: usize = 0;
    while i < actual.len()
        invariant
            i <= actual@.len(),
            all == kv(actual@),
            lookup(all, k@) == lookup(all.skip(i as int), k@),
        decreases actual@.len() - i,
    {
        assert(all.skip(i as int).drop_first() =~= all.skip(i + 1));
        if is_text(&chars_of(actual[i].0.as_str()), k) {
            return Some(actual[i].1);
        }
        i += 1;
    }
    None
}

impl CaseResult {
    /// A case matches when it completed and concluded exactly what it
    /// expected.
    pub fn matched(&self) -> (r: bool)
        ensures
            r == (self.error is None && kv(self.expected@) == kv(self.actual@)),
    {
        if self.error.is_some() {
            return false;
        }
        if self.expected.len() != self.actual.len() {
            assert(kv(self.expected@).len() != kv(self.actual@).len());
            return false;
        }
        let mut i: usize = 0;
        while i < self.expected.len()
            invariant
                i <= self.expected@.len() == self.actual@.len(),
                forall|j: int| 0 <= j < i ==> kv(self.expected@)[j] == #[trigger] kv(self.actual@)[j],
            decreases self.expected@.len() - i,
        {
            if !is_text(&chars_of(self.expected[i].0.as_str()), self.actual[i].0.as_str())
                || self.expected[i].1 != self.actual[i].1 {
                assert(kv(self.expected@)[i as int] != kv(self.actual@)[i as int]);
                return false;
            }
            i += 1;
        }
        assert(kv(self.expected@) =~= kv(self.actual@));
        true
    }

    /// How many expectations a completed case met; none for a case with an
    /// error.
    pub fn matches(&self) -> (r: usize)
        ensures
            r == if self.error is Some {
                0
            } else {
                hits(kv(self.expected@), kv(self.actual@))
            },
            r <= self.expected@.len(),
    {
        if self.error.is_some() {
            return 0;
        }
        let ghost e = kv(self.expected@);
        let ghost a = kv(self.actual@);
        let mut n: usize = 0;
        let mut i: usize = 0;
        assert(e.take(0) =~= Seq::<(Seq<char>, ContractStatus)>::empty());
        while i < self.expected.len()
            invariant
                i <= self.expected@.len(),
                e == kv(self.expected@),
                a == kv(self.actual@),
                n == hits(e.take(i as int), a),
                n <= i,
            decreases self.expected@.len() - i,
        {
            assert(e.take(i + 1).drop_last() =~= e.take(i as int));
            if find_status(&self.actual, self.expected[i].0.as_str()) == Some(self.expected[i].1) {
                n += 1;
            }
            i += 1;
        }
        assert(e.take(self.expected@.len() as int) =~= e);
        n
    }
}

/// Records the conclusion a run reached for a contract.
pub fn record_conclusion(actual: &mut Vec<(String, ContractStatus)>, contract: String, status: ContractStatus)
    requires
        ascending(kv_keys(kv(old(actual)@))),
    ensures
        ascending(kv_keys(kv(final(actual)@))),
        table(kv(final(actual)@)) == table(kv(old(actual)@)).insert(contract@, status),
{
    put_sorted(actual, contract, status);
}

/// Why a case could not be scored, if it could not: some check did not
/// complete, or some contract reached no conclusion.
pub fn case_error(summary: &Summary, concluded: usize, expected: usize) -> (r: Option<String>)
    ensures
        summary.errors > 0 || summary.incomplete > 0 ==> opt_text(r)
            == Some("File or repository checks could not complete; see the recorded events."@),
        !(summary.errors > 0 || summary.incomplete > 0) && concluded != expected ==> opt_text(r)
            == Some("Missing contract conclusions."@),
        !(summary.errors > 0 || summary.incomplete > 0) && concluded == expected ==> r is None,
{
    if summary.errors > 0 || summary.incomplete > 0 {
        Some(text("File or repository checks could not complete; see the recorded events."))
    } else if concluded != expected {
        Some(text("Missing contract conclusions."))
    } else {
        None
    }
}

pub open spec fn opt_text(o: Option<String>) -> Option<Seq<char>> {
    crate::contract::opt_view(o)
}

/// The scores of a fixture evaluation.
#[derive(Clone, Copy, Debug)]
pub struct Totals {
    pub matched: usize,
    pub mismatched: usize,
    pub errors: usize,
    pub expectations_matched: usize,
    pub expectations_mismatched: usize,
    pub requests: usize,
    pub cancelled: bool,
}

impl Default for Totals {
    fn default() -> (r: Self)
        ensures
            r.matched == 0 && r.mismatched == 0 && r.errors == 0 && r.expectations_matched == 0
                && r.expectations_mismatched == 0 && r.requests == 0 && !r.cancelled,
    {
        Totals {
            matched: 0,
            mismatched: 0,
            errors: 0,
            expectations_matched: 0,
            expectations_mismatched: 0,
            requests: 0,
            cancelled: false,
        }
    }
}

/// The exit code of a fixture evaluation: 130 when cancelled, 2 on an
/// errored case, 1 on a mismatch when strict, else 0.
pub open spec fn totals_exit(t: Totals, strict: bool) -> u8 {
    if t.cancelled {
        130
    } else if t.errors > 0 {
        2
    } else if strict && t.mismatched > 0 {
        1
    } else {
        0
    }
}

impl Totals {
    /// The requests that the next case may make when the whole fixture run
    /// may make `max_requests`: what is left of it, or the error of a
    /// spent budget.
    pub fn remaining(&self, max_requests: usize) -> (r: Result<usize, String>)
        ensures
            match r {
                Ok(n) => self.requests < max_requests && n == max_requests - self.requests,
                Err(m) => self.requests >= max_requests && m@ == "evaluation request budget exhausted"@,
            },
    {
        if self.requests < max_requests {
            Ok(max_requests - self.requests)
        } else {
            Err(crate::text::text("evaluation request budget exhausted"))
        }
    }

    /// Whether the scores can take one more case with `expected`
    /// expectations.
    pub fn has_room(&self, expected: usize) -> (r: bool)
        ensures
            r == (self.matched < usize::MAX && self.mismatched < usize::MAX && self.errors < usize::MAX
                && self.expectations_matched + expected <= usize::MAX && self.expectations_mismatched + expected
                <= usize::MAX),
    {
        self.matched < usize::MAX && self.mismatched < usize::MAX && self.errors < usize::MAX
            && self.expectations_matched <= usize::MAX - expected && self.expectations_mismatched <= usize::MAX
            - expected
    }

    /// Scores one case: an error, a match or a mismatch; and, for a
    /// completed case, its expectations met and missed.
    pub fn add(&mut self, result: &CaseResult)
        requires
            old(self).matched < usize::MAX && old(self).mismatched < usize::MAX && old(self).errors < usize::MAX,
            old(self).expectations_matched + result.expected@.len() <= usize::MAX,
            old(self).expectations_mismatched + result.expected@.len() <= usize::MAX,
        ensures
            result.error is Some ==> final(self).errors == old(self).errors + 1 && final(self).matched
                == old(self).matched && final(self).mismatched == old(self).mismatched,
            result.error is None && kv(result.expected@) == kv(result.actual@) ==> final(self).matched
                == old(self).matched + 1 && final(self).errors == old(self).errors && final(self).mismatched
                == old(self).mismatched,
            result.error is None && kv(result.expected@) != kv(result.actual@) ==> final(self).mismatched
                == old(self).mismatched + 1 && final(self).errors == old(self).errors && final(self).matched
                == old(self).matched,
            result.error is Some ==> final(self).expectations_matched == old(self).expectations_matched
                && final(self).expectations_mismatched == old(self).expectations_mismatched,
            result.error is None ==> final(self).expectations_matched == old(self).expectations_matched + hits(
                kv(result.expected@),
                kv(result.actual@),
            ) && final(self).expectations_mismatched == old(self).expectations_mismatched + result.expected@.len()
                - hits(kv(result.expected@), kv(result.actual@)),
            final(self).requests == old(self).requests,
            final(self).cancelled == old(self).cancelled,
    {
        if result.error.is_some() {
            self.errors += 1;
        } else if result.matched() {
            self.matched += 1;
        } else {
            self.mismatched += 1;
        }
        if result.error.is_none() {
            let hit = result.matches();
            self.expectations_matched += hit;
            self.expectations_mismatched += result.expected.len() - hit;
        }
    }

    pub fn exit_code(&self, strict: bool) -> (r: u8)
        ensures
            r == totals_exit(*self, strict),
    {
        if self.cancelled {
            130
        } else if self.errors > 0 {
            2
        } else if strict && self.mismatched > 0 {
            1
        } else {
            0
        }
    }
}

/// Mismatches fail an evaluation only when it is strict; cancellation and
/// errored cases always decide its exit code.
pub proof fn mismatches_matter_only_when_strict(t: Totals)
    ensures
        !t.cancelled && t.errors == 0 ==> totals_exit(t, false) == 0,
        !t.cancelled && t.errors == 0 && t.mismatched > 0 ==> totals_exit(t, true) == 1,
        t.cancelled ==> totals_exit(t, true) == 130 && totals_exit(t, false) == 130,
        !t.cancelled && t.errors > 0 ==> totals_exit(t, true) == 2 && totals_exit(t, false) == 2,
{
}


// ---------------------------------------------------------------------
// The fingerprint of a prepared case
// ---------------------------------------------------------------------

/// The bytes of each file after its path.
pub open spec fn files_bytes(f: Seq<(Seq<char>, Seq<u8>)>) -> Seq<u8>
    decreases f.len(),
{
    if f.len() == 0 {
        seq![]
    } else {
        files_bytes(f.drop_last()) + vstd::utf8::encode_utf8(f.last().0) + f.last().1
    }
}

/// The bytes of each text in turn.
pub open spec fn texts_bytes(t: Seq<Seq<char>>) -> Seq<u8>
    decreases t.len(),
{
    if t.len() == 0 {
        seq![]
    } else {
        texts_bytes(t.drop_last()) + vstd::utf8::encode_utf8(t.last())
    }
}

/// What a case's fingerprint digests: its manifest, the digest of its
/// patch, each inventory path with its contents, and each contract's
/// digest.
pub open spec fn fingerprint_input(
    manifest: Seq<u8>,
    patch_hash: Option<Seq<char>>,
    files: Seq<(Seq<char>, Seq<u8>)>,
    hashes: Seq<Seq<char>>,
) -> Seq<u8> {
    manifest + match patch_hash {
        Some(h) => vstd::utf8::encode_utf8(h),
        None => seq![],
    } + files_bytes(files) + texts_bytes(hashes)
}

fn push_bytes(v: &mut Vec<u8>, b: &[u8])
    ensures
        final(v)@ == old(v)@ + b@,
{
    let ghost start = v@;
    let mut i: usize = 0;
    while i < b.len()
        invariant
            i <= b@.len(),
            v@ == start + b@.take(i as int),
        decreases b@.len() - i,
    {
        v.push(b[i]);
        i += 1;
    }
    assert(b@.take(b@.len() as int) =~= b@);
}

pub open spec fn file_views(files: Seq<(String, Vec<u8>)>) -> Seq<(Seq<char>, Seq<u8>)> {
    files.map_values(|f: (String, Vec<u8>)| (f.0@, f.1@))
}

/// The BLAKE3 digest that identifies a prepared case, in hexadecimal
/// (feeding a hasher the parts in turn digests their concatenation).
pub fn fingerprint(
    manifest: &[u8],
    patch_hash: &Option<String>,
    files: &Vec<(String, Vec<u8>)>,
    hashes: &Vec<String>,
) -> (r: String)
    ensures
        r@ == blake3_digest(fingerprint_input(manifest@, crate::contract::opt_view(*patch_hash), file_views(files@), strs(hashes@))),
{
    let mut v: Vec<u8> = Vec::new();
    push_bytes(&mut v, manifest);
    match patch_hash {
        Some(h) => push_bytes(&mut v, h.as_str().as_bytes()),
        None => {},
    }
    let ghost head = v@;
    let ghost fv = file_views(files@);
    let mut i: usize = 0;
    assert(fv.take(0) =~= Seq::<(Seq<char>, Seq<u8>)>::empty());
    assert(v@ =~= head + files_bytes(fv.take(0)));
    while i < files.len()
        invariant
            i <= files@.len(),
            fv == file_views(files@),
            v@ == head + files_bytes(fv.take(i as int)),
        decreases files@.len() - i,
    {
        assert(fv.take(i + 1).drop_last() =~= fv.take(i as int));
        push_bytes(&mut v, files[i].0.as_str().as_bytes());
        push_bytes(&mut v, files[i].1.as_slice());
        assert(v@ =~= head + files_bytes(fv.take(i + 1)));
        i += 1;
    }
    assert(fv.take(files@.len() as int) =~= fv);
    let ghost middle = v@;
    let ghost hv = strs(hashes@);
    let mut k: usize = 0;
    assert(hv.take(0) =~= Seq::<Seq<char>>::empty());
    assert(v@ =~= middle + texts_bytes(hv.take(0)));
    while k < hashes.len()
        invariant
            k <= hashes@.len(),
            hv == strs(hashes@),
            v@ == middle + texts_bytes(hv.take(k as int)),
        decreases hashes@.len() - k,
    {
        assert(hv.take(k + 1).drop_last() =~= hv.take(k as int));
        push_bytes(&mut v, hashes[k].as_str().as_bytes());
        assert(v@ =~= middle + texts_bytes(hv.take(k + 1)));
        k += 1;
    }
    assert(hv.take(hashes@.len() as int) =~= hv);
    assert(v@ =~= fingerprint_input(manifest@, crate::contract::opt_view(*patch_hash), fv, hv));
    crate::parse::blake3_hex(v.as_slice())
}


// ---------------------------------------------------------------------
// Redaction
// ---------------------------------------------------------------------

/// `s.replace(pat, rep)` for a nonempty pattern: each occurrence, found
/// left to right without overlap, is replaced.
pub open spec fn replaced(s: Seq<char>, pat: Seq<char>, rep: Seq<char>) -> Seq<char>
    decreases s.len(),
{
    if pat.len() == 0 || s.len() < pat.len() {
        s
    } else if s.take(pat.len() as int) == pat {
        rep + replaced(s.skip(pat.len() as int), pat, rep)
    } else {
        seq![s[0]] + replaced(s.drop_first(), pat, rep)
    }
}

fn starts_at(s: &Vec<char>, i: usize, pat: &Vec<char>) -> (r: bool)
    requires
        i <= s@.len(),
    ensures
        r == (i + pat@.len() <= s@.len() && s@.skip(i as int).take(pat@.len() as int) == pat@),
{
    let n = s.len();
    if pat.len() > n - i {
        return false;
    }
    let mut k: usize = 0;
    while k < pat.len()
        invariant
            k <= pat@.len(),
            n == s@.len(),
            i + pat@.len() <= s@.len(),
            forall|j: int| 0 <= j < k ==> s@[i + j] == pat@[j],
        decreases pat@.len() - k,
    {
        let at = i + k;
        if s[at] != pat[k] {
            assert(s@.skip(i as int).take(pat@.len() as int)[k as int] != pat@[k as int]);
            return false;
        }
        k += 1;
    }
    assert(s@.skip(i as int).take(pat@.len() as int) =~= pat@);
    true
}

proof fn lemma_replaced_step(s: Seq<char>, p: Seq<char>, w: Seq<char>)
    requires
        p.len() > 0,
        s.len() >= p.len(),
    ensures
        s.take(p.len() as int) == p ==> replaced(s, p, w) == w + replaced(s.skip(p.len() as int), p, w),
        s.take(p.len() as int) != p ==> replaced(s, p, w) == seq![s[0]] + replaced(s.drop_first(), p, w),
{
}

/// Replaces every occurrence of a pattern (`str::replace`; an empty
/// pattern leaves the text as it is).
#[verifier::rlimit(40)]
pub fn replace_all(s: &str, pat: &str, rep: &str) -> (r: String)
    ensures
        r@ == replaced(s@, pat@, rep@),
{
    let v = chars_of(s);
    let p = chars_of(pat);
    let w = chars_of(rep);
    if p.len() == 0 {
        return text(s);
    }
    let mut out: Vec<char> = Vec::new();
    let mut i: usize = 0;
    assert(v@.skip(0) =~= v@);
    while i < v.len() && p.len() <= v.len() - i
        invariant
            i <= v@.len(),
            v@ == s@,
            p@ == pat@,
            w@ == rep@,
            p@.len() > 0,
            out@ + replaced(v@.skip(i as int), p@, w@) == replaced(v@, p@, w@),
        decreases v@.len() - i,
    {
        let ghost rest = v@.skip(i as int);
        let ghost before = out@;
        proof {
            lemma_replaced_step(rest, p@, w@);
        }
        if starts_at(&v, i, &p) {
            let mut k: usize = 0;
            while k < w.len()
                invariant
                    k <= w@.len(),
                    out@ == before + w@.take(k as int),
                decreases w@.len() - k,
            {
                out.push(w[k]);
                k += 1;
            }
            proof {
                assert(w@.take(w@.len() as int) =~= w@);
                assert(rest.skip(p@.len() as int) =~= v@.skip(i + p@.len()));
                assert(before + (w@ + replaced(rest.skip(p@.len() as int), p@, w@)) =~= out@ + replaced(
                    v@.skip(i + p@.len()),
                    p@,
                    w@,
                ));
            }
            i += p.len();
        } else {
            out.push(v[i]);
            proof {
                assert(rest.drop_first() =~= v@.skip(i + 1));
                assert(before + (seq![rest[0]] + replaced(rest.drop_first(), p@, w@)) =~= out@ + replaced(
                    v@.skip(i + 1),
                    p@,
                    w@,
                ));
            }
            i += 1;
        }
    }
    let ghost before = out@;
    let ghost rest = v@.skip(i as int);
    assert(replaced(rest, p@, w@) == rest);
    let mut j = i;
    while j < v.len()
        invariant
            i <= j <= v@.len(),
            rest == v@.skip(i as int),
            out@ == before + v@.subrange(i as int, j as int),
        decreases v@.len() - j,
    {
        out.push(v[j]);
        assert(v@.subrange(i as int, j + 1) =~= v@.subrange(i as int, j as int).push(v@[j as int]));
        j += 1;
    }
    assert(v@.subrange(i as int, v@.len() as int) =~= rest);
    string_of(&out)
}

/// Hides each secret in a line of the evaluation record (an empty one
/// hides nothing).
pub fn redact(line: String, secrets: &Vec<String>) -> (r: String)
    ensures
        r@ == redacted(line@, strs(secrets@)),
{
    let ghost sv = strs(secrets@);
    let mut out = line;
    let mut i: usize = 0;
    assert(sv.take(0) =~= Seq::<Seq<char>>::empty());
    while i < secrets.len()
        invariant
            i <= secrets@.len(),
            sv == strs(secrets@),
            out@ == redacted(line@, sv.take(i as int)),
        decreases secrets@.len() - i,
    {
        assert(sv.take(i + 1).drop_last() =~= sv.take(i as int));
        out = replace_all(out.as_str(), secrets[i].as_str(), "[REDACTED]");
        i += 1;
    }
    assert(sv.take(secrets@.len() as int) =~= sv);
    out
}

/// Each secret in turn replaced by `[REDACTED]`.
pub open spec fn redacted(line: Seq<char>, secrets: Seq<Seq<char>>) -> Seq<char>
    decreases secrets.len(),
{
    if secrets.len() == 0 {
        line
    } else {
        replaced(redacted(line, secrets.drop_last()), secrets.last(), "[REDACTED]"@)
    }
}


proof fn lemma_named_case_selected(
    prefix: Seq<char>,
    cases: Seq<Case>,
    i: int,
    seen: Set<Seq<char>>,
    split: Seq<char>,
    case: Option<Seq<char>>,
    contract: Option<Seq<char>>,
    j: int,
)
    requires
        0 <= i <= j < cases.len(),
        select_from(prefix, cases, i, seen, split, case, contract) is Ok,
        split == "all"@ || cases[j].split@ == split,
        case == Some(cases[j].name@) || case == Some(case_id(prefix, cases[j].name@)),
        contract matches Some(k) ==> exists|t: int| has_key(kv(cases[j].expect@), t, k),
    ensures
        select_from(prefix, cases, i, seen, split, case, contract) matches Ok(v) && exists|t: int|
            0 <= t < v.len() && #[trigger] v[t].name == cases[j].name@ && v[t].id == case_id(prefix, cases[j].name@),
    decreases j - i,
{
    let c = cases[i];
    let seen2 = seen.insert(c.name@);
    if i < j {
        lemma_named_case_selected(prefix, cases, i + 1, seen2, split, case, contract, j);
        if chosen(prefix, c, split, case, contract) {
            let v = select_from(prefix, cases, i, seen, split, case, contract)->Ok_0;
            let rest = select_from(prefix, cases, i + 1, seen2, split, case, contract)->Ok_0;
            let t = choose|t: int|
                0 <= t < rest.len() && #[trigger] rest[t].name == cases[j].name@ && rest[t].id == case_id(
                    prefix,
                    cases[j].name@,
                );
            assert(v[t + 1] == rest[t]);
        }
    } else {
        assert(chosen(prefix, c, split, case, contract));
        let v = select_from(prefix, cases, i, seen, split, case, contract)->Ok_0;
        assert(v[0].name == c.name@);
    }
}

/// A case named on the command line, by its bare name or by its id (the
/// fixture's path, `/` and the name), is selected whenever it passes the
/// split and contract filters and the selection succeeds.
pub proof fn named_cases_are_selected(
    prefix: Seq<char>,
    cases: Seq<Case>,
    split: Seq<char>,
    case: Option<Seq<char>>,
    contract: Option<Seq<char>>,
    j: int,
)
    requires
        0 <= j < cases.len(),
        case == Some(cases[j].name@) || case == Some(case_id(prefix, cases[j].name@)),
        split == "all"@ || cases[j].split@ == split,
        contract matches Some(k) ==> exists|t: int| has_key(kv(cases[j].expect@), t, k),
        select_from(prefix, cases, 0, Set::empty(), split, case, contract) is Ok,
    ensures
        select_from(prefix, cases, 0, Set::empty(), split, case, contract) matches Ok(v) && exists|t: int|
            0 <= t < v.len() && #[trigger] v[t].name == cases[j].name@ && v[t].id == case_id(prefix, cases[j].name@),
{
    lemma_named_case_selected(prefix, cases, 0, Set::empty(), split, case, contract, j);
}

} // verus!
