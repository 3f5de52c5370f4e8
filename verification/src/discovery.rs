//! Which contracts run, in which order, and which files each one judges.
use vstd::prelude::*;
use crate::change::{Change, Mode};
use crate::contract::{Contract, ContractView};
use crate::order::{insert_sorted, path_lt, ascending, strs, lemma_path_order, lemma_parts_trichotomy, lemma_segments_eq};
use crate::paths::{allowed, in_contracts, is_contract, is_inward, inward, permitted, segments, segments_of, starts_with, under};
use crate::text::{chars_of, is_text, text, text_with};

verus! {

broadcast use vstd::seq_lib::group_seq_properties;

pub open spec fn cviews(v: Seq<Contract>) -> Seq<ContractView> {
    v.map_values(|c: Contract| c@)
}

/// The number of components of a path.
pub open spec fn depth(p: Seq<char>) -> nat {
    segments(p).len()
}

/// The order in which contracts run: shallower scopes first, then scopes in
/// path order, then contract numbers.
pub open spec fn runs_before(a: ContractView, b: ContractView) -> bool {
    ||| depth(a.scope) < depth(b.scope)
    ||| (depth(a.scope) == depth(b.scope) && path_lt(a.scope, b.scope))
    ||| (a.scope == b.scope && a.number < b.number)
}

/// The problem that the first clash among the contracts raises: a repeated
/// name, or a repeated number within one scope.
pub open spec fn first_clash(cs: Seq<ContractView>) -> Option<Seq<char>>
    decreases cs.len(),
{
    if cs.len() == 0 {
        None
    } else {
        let p = cs.drop_last();
        let c = cs.last();
        match first_clash(p) {
            Some(m) => Some(m),
            None => if exists|i: int| 0 <= i < p.len() && #[trigger] p[i].name == c.name {
                Some("duplicate contract name: "@ + c.name)
            } else if exists|i: int|
                0 <= i < p.len() && #[trigger] p[i].scope == c.scope && p[i].number == c.number {
                Some("duplicate contract number in "@ + c.scope)
            } else {
                None
            },
        }
    }
}

/// Contracts in run order.
pub open spec fn in_run_order(cs: Seq<ContractView>) -> bool {
    forall|i: int, j: int| 0 <= i < j < cs.len() ==> runs_before(#[trigger] cs[i], #[trigger] cs[j])
}

/// No two contracts share a scope and a number.
pub open spec fn distinct_keys(cs: Seq<ContractView>) -> bool {
    forall|i: int, j: int|
        0 <= i < j < cs.len() ==> !(#[trigger] cs[i].scope == #[trigger] cs[j].scope && cs[i].number
            == cs[j].number)
}

proof fn lemma_runs_order(a: ContractView, b: ContractView, c: ContractView)
    ensures
        runs_before(a, b) && runs_before(b, c) ==> runs_before(a, c),
        !(runs_before(a, b) && runs_before(b, a)),
        !(a.scope == b.scope && a.number == b.number) ==> runs_before(a, b) || runs_before(b, a),
{
    lemma_path_order(a.scope, b.scope, c.scope);
    lemma_path_order(b.scope, a.scope, b.scope);
    lemma_path_order(a.scope, a.scope, a.scope);
    lemma_parts_trichotomy(segments(a.scope), segments(b.scope));
    if segments(a.scope) == segments(b.scope) {
        lemma_segments_eq(a.scope, b.scope);
    }
}

proof fn lemma_clash_prefix(cs: Seq<ContractView>, j: int)
    requires
        0 <= j <= cs.len(),
        first_clash(cs.take(j)) is Some,
    ensures
        first_clash(cs) == first_clash(cs.take(j)),
    decreases cs.len() - j,
{
    if j < cs.len() {
        assert(cs.take(j + 1).drop_last() =~= cs.take(j));
        lemma_clash_prefix(cs, j + 1);
    } else {
        assert(cs.take(j) =~= cs);
    }
}

proof fn lemma_no_clash(cs: Seq<ContractView>)
    requires
        first_clash(cs) is None,
    ensures
        distinct_keys(cs),
        forall|i: int, j: int| 0 <= i < j < cs.len() ==> #[trigger] cs[i].name != #[trigger] cs[j].name,
    decreases cs.len(),
{
    if cs.len() > 0 {
        let p = cs.drop_last();
        lemma_no_clash(p);
        assert forall|i: int, j: int| 0 <= i < j < cs.len() implies !(#[trigger] cs[i].scope
            == #[trigger] cs[j].scope && cs[i].number == cs[j].number) by {
            if j < cs.len() - 1 {
                assert(p[i] == cs[i] && p[j] == cs[j]);
            } else {
                assert(p[i] == cs[i]);
            }
        }
        assert forall|i: int, j: int| 0 <= i < j < cs.len() implies #[trigger] cs[i].name
            != #[trigger] cs[j].name by {
            if j < cs.len() - 1 {
                assert(p[i] == cs[i] && p[j] == cs[j]);
            } else {
                assert(p[i] == cs[i]);
            }
        }
    }
}

fn name_seen(cs: &Vec<Contract>, upto: usize, name: &String) -> (r: bool)
    requires
        upto <= cs@.len(),
    ensures
        r == exists|i: int| 0 <= i < upto && #[trigger] cviews(cs@)[i].name == name@,
{
    let mut i: usize = 0;
    while i < upto
        invariant
            i <= upto <= cs@.len(),
            forall|k: int| 0 <= k < i ==> #[trigger] cviews(cs@)[k].name != name@,
        decreases upto - i,
    {
        if cs[i].name == *name {
            assert(cviews(cs@)[i as int].name == name@);
            return true;
        }
        i += 1;
    }
    false
}

fn number_seen(cs: &Vec<Contract>, upto: usize, scope: &String, number: u32) -> (r: bool)
    requires
        upto <= cs@.len(),
    ensures
        r == exists|i: int|
            0 <= i < upto && #[trigger] cviews(cs@)[i].scope == scope@ && cviews(cs@)[i].number
                == number,
{
    let mut i: usize = 0;
    while i < upto
        invariant
            i <= upto <= cs@.len(),
            forall|k: int|
                0 <= k < i ==> !(#[trigger] cviews(cs@)[k].scope == scope@ && cviews(cs@)[k].number
                    == number),
        decreases upto - i,
    {
        if cs[i].scope == *scope && cs[i].number == number {
            assert(cviews(cs@)[i as int].scope == scope@);
            return true;
        }
        i += 1;
    }
    false
}

fn scope_less(a: &Contract, b: &Contract) -> (r: bool)
    ensures
        r == runs_before(a@, b@),
{
    let da = segments_of(a.scope.as_str()).len();
    let db = segments_of(b.scope.as_str()).len();
    da < db || (da == db && crate::order::path_less(a.scope.as_str(), b.scope.as_str())) || (a.scope
        == b.scope && a.number < b.number)
}

proof fn lemma_insert_multiset<A>(s: Seq<A>, k: int, x: A)
    requires
        0 <= k <= s.len(),
    ensures
        s.insert(k, x).to_multiset() == s.to_multiset().insert(x),
{
    broadcast use vstd::multiset::group_multiset_axioms;
    let a = s.take(k);
    let b = s.skip(k);
    assert(s =~= a + b);
    assert(s.insert(k, x) =~= a + (seq![x] + b));
    vstd::seq_lib::lemma_multiset_commutative(a, seq![x] + b);
    vstd::seq_lib::lemma_multiset_commutative(seq![x], b);
    vstd::seq_lib::lemma_multiset_commutative(a, b);
    assert(seq![x].to_multiset() =~= vstd::multiset::Multiset::singleton(x)) by {
        assert(seq![x] =~= Seq::<A>::empty().push(x));
    }
    assert(s.insert(k, x).to_multiset() =~= s.to_multiset().insert(x));
}

/// The first clash among the contracts, if any.
fn check_clashes(contracts: &Vec<Contract>) -> (r: Result<(), String>)
    ensures
        match (r, first_clash(cviews(contracts@))) {
            (Err(m), Some(v)) => m@ == v,
            (Ok(()), None) => true,
            _ => false,
        },
{
    let ghost all = cviews(contracts@);
    let mut i: usize = 0;
    assert(all.take(0) =~= Seq::<ContractView>::empty());
    while i < contracts.len()
        invariant
            i <= contracts@.len(),
            all == cviews(contracts@),
            first_clash(all.take(i as int)) is None,
        decreases contracts@.len() - i,
    {
        let ghost t = all.take(i + 1);
        proof {
            assert(t.drop_last() =~= all.take(i as int));
            assert(t.last() == all[i as int]);
        }
        if name_seen(contracts, i, &contracts[i].name) {
            proof {
                let k = choose|k: int| 0 <= k < i && #[trigger] cviews(contracts@)[k].name == contracts@[i as int].name@;
                assert(t.drop_last()[k].name == t.last().name);
                lemma_clash_prefix(all, i + 1);
            }
            return Err(text_with("duplicate contract name: ", &chars_of(contracts[i].name.as_str())));
        }
        if number_seen(contracts, i, &contracts[i].scope, contracts[i].number) {
            proof {
                let k = choose|k: int| 0 <= k < i && #[trigger] cviews(contracts@)[k].scope == contracts@[i as int].scope@ && cviews(contracts@)[k].number == contracts@[i as int].number;
                assert(t.drop_last()[k].scope == t.last().scope && t.drop_last()[k].number == t.last().number);
                assert(!exists|k: int| 0 <= k < t.drop_last().len() && #[trigger] t.drop_last()[k].name == t.last().name);
                lemma_clash_prefix(all, i + 1);
            }
            return Err(
                text_with("duplicate contract number in ", &chars_of(contracts[i].scope.as_str())),
            );
        }
        proof {
            assert(!exists|k: int| 0 <= k < t.drop_last().len() && #[trigger] t.drop_last()[k].name == t.last().name);
        }
        i += 1;
    }
    proof {
        assert(all.take(contracts@.len() as int) =~= all);
    }
    Ok(())
}

/// Puts contracts with distinct scope and number pairs in run order.
fn sort_contracts(contracts: Vec<Contract>) -> (r: Vec<Contract>)
    requires
        distinct_keys(cviews(contracts@)),
    ensures
        in_run_order(cviews(r@)),
        cviews(r@).to_multiset() == cviews(contracts@).to_multiset(),
{
    let ghost all = cviews(contracts@);
    let mut rest = contracts;
    let mut out: Vec<Contract> = Vec::new();
    let ghost taken: int = 0;
    proof {
        assert(all.take(0) =~= Seq::<ContractView>::empty());
        assert(cviews(out@) =~= Seq::<ContractView>::empty());
        assert(all.skip(0) =~= all);
    }
    while rest.len() > 0
        invariant
            all.len() == taken + rest@.len(),
            0 <= taken <= all.len(),
            cviews(rest@) == all.skip(taken),
            cviews(out@).to_multiset() == all.take(taken).to_multiset(),
            in_run_order(cviews(out@)),
            forall|a: int, b: int|
                0 <= a < out@.len() && 0 <= b < rest@.len() ==> !(#[trigger] cviews(out@)[a].scope
                    == #[trigger] cviews(rest@)[b].scope && cviews(out@)[a].number == cviews(
                    rest@,
                )[b].number),
            distinct_keys(cviews(rest@)),
        decreases rest@.len(),
    {
        let ghost rv = cviews(rest@);
        let ghost ov = cviews(out@);
        let c = rest.remove(0);
        proof {
            assert(cviews(rest@) =~= rv.drop_first());
            assert(rv[0] == c@);
            assert(all.take(taken + 1) =~= all.take(taken).push(c@)) by {
                assert(all.skip(taken)[0] == all[taken]);
            }
            assert(all.skip(taken + 1) =~= all.skip(taken).drop_first());
        }
        let mut k: usize = 0;
        while k < out.len() && scope_less(&out[k], &c)
            invariant
                k <= out@.len(),
                cviews(out@) == ov,
                forall|j: int| 0 <= j < k ==> runs_before(#[trigger] ov[j], c@),
            decreases out@.len() - k,
        {
            k += 1;
        }
        proof {
            if k < out@.len() {
                assert(!(ov[k as int].scope == rv[0].scope && ov[k as int].number == rv[0].number));
                lemma_runs_order(ov[k as int], c@, c@);
                lemma_runs_order(c@, ov[k as int], c@);
            }
        }
        out.insert(k, c);
        proof {
            let nv = cviews(out@);
            assert(nv =~= ov.insert(k as int, c@));
            lemma_insert_multiset(ov, k as int, c@);
            assert forall|a: int, b: int| 0 <= a < b < nv.len() implies runs_before(
                #[trigger] nv[a],
                #[trigger] nv[b],
            ) by {
                if a == k {
                    lemma_runs_order(c@, ov[k as int], ov[b - 1]);
                }
            }
            assert forall|a: int, b: int|
                0 <= a < nv.len() && 0 <= b < rest@.len() implies !(#[trigger] nv[a].scope
                == #[trigger] cviews(rest@)[b].scope && nv[a].number == cviews(rest@)[b].number) by {
                assert(cviews(rest@)[b] == rv[b + 1]);
                if a > k {
                    assert(nv[a] == ov[a - 1]);
                }
            }
            assert forall|a: int, b: int| 0 <= a < b < cviews(rest@).len() implies !(
            #[trigger] cviews(rest@)[a].scope == #[trigger] cviews(rest@)[b].scope && cviews(
                rest@,
            )[a].number == cviews(rest@)[b].number) by {
                assert(cviews(rest@)[a] == rv[a + 1]);
                assert(cviews(rest@)[b] == rv[b + 1]);
            }
            taken = taken + 1;
        }
    }
    proof {
        assert(all.take(all.len() as int) =~= all);
    }
    out
}

/// Checks that contract names are unique and that numbers are unique
/// within each scope, then puts the contracts in run order.
pub fn order_contracts(contracts: Vec<Contract>) -> (r: Result<Vec<Contract>, String>)
    ensures
        match (r, first_clash(cviews(contracts@))) {
            (Err(m), Some(v)) => m@ == v,
            (Ok(v), None) => in_run_order(cviews(v@)) && cviews(v@).to_multiset() == cviews(
                contracts@,
            ).to_multiset(),
            _ => false,
        },
{
    match check_clashes(&contracts) {
        Err(m) => Err(m),
        Ok(()) => {
            proof {
                lemma_no_clash(cviews(contracts@));
            }
            Ok(sort_contracts(contracts))
        },
    }
}

// ---------------------------------------------------------------------
// Plans
// ---------------------------------------------------------------------

/// What a user selected: paths, a base commit and one contract.
pub struct Selection {
    pub paths: Vec<String>,
    pub base: Option<String>,
    pub contract: Option<String>,
}

/// Changed paths against a base commit, in path order, each with the path
/// it was renamed from.
pub struct Changes {
    pub paths: Vec<(String, Option<String>)>,
    pub base: String,
}

/// The contracts and files of a run.
pub struct Plan {
    pub root: String,
    pub contracts: Vec<Contract>,
    pub files: Vec<String>,
    pub deleted: Vec<String>,
    pub base: Option<String>,
    pub head: Option<String>,
    pub partial: bool,
    pub mode: Mode,
    pub inventory: Vec<String>,
    /// Renamed paths and the paths they had before, in path order.
    pub previous_paths: Vec<(String, String)>,
    pub context: Vec<Change>,
    pub contract_changes: Vec<String>,
}

pub open spec fn entry_views(v: Seq<(String, Option<String>)>) -> Seq<(Seq<char>, Option<Seq<char>>)> {
    v.map_values(|e: (String, Option<String>)| (e.0@, crate::contract::opt_view(e.1)))
}

pub open spec fn pair_views(v: Seq<(String, String)>) -> Seq<(Seq<char>, Seq<char>)> {
    v.map_values(|e: (String, String)| (e.0@, e.1@))
}

/// The path a renamed path had, from the recorded renames.
pub open spec fn previous_of(prev: Seq<(Seq<char>, Seq<char>)>, p: Seq<char>) -> Option<Seq<char>>
    decreases prev.len(),
{
    if prev.len() == 0 {
        None
    } else if prev.last().0 == p {
        Some(prev.last().1)
    } else {
        previous_of(prev.drop_last(), p)
    }
}

/// Whether a path, or the path it was renamed from, lies in the scope.
pub open spec fn scoped(prev: Seq<(Seq<char>, Seq<char>)>, p: Seq<char>, scope: Seq<char>) -> bool {
    under(p, scope) || (previous_of(prev, p) matches Some(old) && under(old, scope))
}

impl Plan {
    pub open spec fn renames(&self) -> Seq<(Seq<char>, Seq<char>)> {
        pair_views(self.previous_paths@)
    }

    /// Whether `path` (or the path it was renamed from) lies in `scope`.
    pub fn in_scope(&self, path: &str, scope: &str) -> (r: bool)
        ensures
            r == scoped(self.renames(), path@, scope@),
    {
        if starts_with(path, scope) {
            return true;
        }
        match self.previous(path) {
            Some(old) => starts_with(old.as_str(), scope),
            None => false,
        }
    }

    /// The path that `path` was renamed from, if it was.
    pub fn previous(&self, path: &str) -> (r: Option<String>)
        ensures
            crate::contract::opt_view(r) == previous_of(self.renames(), path@),
    {
        previous_in(&self.previous_paths, path)
    }
}

fn previous_in(prev: &Vec<(String, String)>, path: &str) -> (r: Option<String>)
    ensures
        crate::contract::opt_view(r) == previous_of(pair_views(prev@), path@),
{
    let ghost all = pair_views(prev@);
    let mut i = prev.len();
    while i > 0
        invariant
            i <= prev@.len(),
            all == pair_views(prev@),
            previous_of(all, path@) == previous_of(all.take(i as int), path@),
        decreases i,
    {
        assert(all.take(i as int).drop_last() =~= all.take(i - 1));
        if is_text(&chars_of(prev[i - 1].0.as_str()), path) {
            return Some(prev[i - 1].1.clone());
        }
        i -= 1;
    }
    None
}

/// Whether the path names a contract document: a `CONTRACT.md` file under
/// a `.contracts` directory.
pub open spec fn contract_document(p: Seq<char>) -> bool {
    in_contracts(p) && segments(p).len() > 0 && segments(p).last() == "CONTRACT.md"@
}

pub fn is_contract_document(path: &str) -> (r: bool)
    ensures
        r == contract_document(path@),
{
    if !is_contract(path) {
        return false;
    }
    let parts = segments_of(path);
    if parts.len() == 0 {
        return false;
    }
    assert(crate::markdown::views(parts@).last() == parts@.last()@);
    is_text(&parts[parts.len() - 1], "CONTRACT.md")
}

/// The contracts that a selection names: all of them, or the one whose
/// name it gives.
pub open spec fn named(cs: Seq<ContractView>, name: Option<Seq<char>>) -> Seq<ContractView> {
    match name {
        Some(n) => cs.filter(|c: ContractView| c.name == n),
        None => cs,
    }
}

/// Selects the contracts a run uses: the one the selection names, or all;
/// a run needs at least one unless it compares against a base.
pub fn select_contracts(contracts: Vec<Contract>, selection: &Selection, root: &str) -> (r: Result<
    Vec<Contract>,
    String,
>)
    ensures
        r matches Ok(v) ==> cviews(v@) == named(
            cviews(contracts@),
            crate::contract::opt_view(selection.contract),
        ) && (v@.len() > 0 || selection.base is Some),
        r is Err <==> named(cviews(contracts@), crate::contract::opt_view(selection.contract)).len()
            == 0 && (selection.contract is Some || selection.base is None),
        r matches Err(m) ==> m@ == match selection.contract {
            Some(n) => "unknown contract: "@ + n@,
            None => "no contracts found under "@ + root@,
        },
{
    let selected = match &selection.contract {
        Some(name) => {
            let kept = keep_named(contracts, name);
            if kept.len() == 0 {
                return Err(text_with("unknown contract: ", &chars_of(name.as_str())));
            }
            kept
        },
        None => contracts,
    };
    if selected.len() == 0 && selection.base.is_none() {
        return Err(text_with("no contracts found under ", &chars_of(root)));
    }
    Ok(selected)
}

fn keep_named(contracts: Vec<Contract>, name: &String) -> (r: Vec<Contract>)
    ensures
        cviews(r@) == cviews(contracts@).filter(|c: ContractView| c.name == name@),
{
    let ghost all = cviews(contracts@);
    let ghost pred = |c: ContractView| c.name == name@;
    let mut rest = contracts;
    let mut out: Vec<Contract> = Vec::new();
    let ghost taken: int = 0;
    proof {
        reveal(Seq::filter);
        assert(all.take(0) =~= Seq::<ContractView>::empty());
        assert(cviews(out@) =~= Seq::<ContractView>::empty());
    }
    while rest.len() > 0
        invariant
            all.len() == taken + rest@.len(),
            0 <= taken <= all.len(),
            cviews(rest@) == all.skip(taken),
            cviews(out@) == all.take(taken).filter(pred),
            pred == (|c: ContractView| c.name == name@),
        decreases rest@.len(),
    {
        let ghost rv = cviews(rest@);
        let ghost ov = cviews(out@);
        let c = rest.remove(0);
        proof {
            reveal(Seq::filter);
            assert(cviews(rest@) =~= rv.drop_first());
            assert(all.take(taken + 1).drop_last() =~= all.take(taken));
            assert(all.take(taken + 1).last() == c@) by {
                assert(rv[0] == c@);
                assert(all.skip(taken)[0] == all[taken]);
            }
            assert(all.skip(taken + 1) =~= all.skip(taken).drop_first());
        }
        if c.name == *name {
            out.push(c);
            proof {
                assert(cviews(out@) =~= ov.push(c@));
            }
        }
        proof {
            taken = taken + 1;
        }
    }
    proof {
        assert(all.take(all.len() as int) =~= all);
    }
    out
}

/// A selected path must be relative and stay within the project.
pub fn check_selected(path: &str) -> (r: Result<(), String>)
    ensures
        r is Ok <==> inward(path@),
        r matches Err(m) ==> m@ == "selected paths must be relative and stay within the project"@,
{
    if is_inward(&chars_of(path)) {
        Ok(())
    } else {
        Err(text("selected paths must be relative and stay within the project"))
    }
}


pub open spec fn keys_of(e: Seq<(Seq<char>, Option<Seq<char>>)>) -> Seq<Seq<char>> {
    e.map_values(|x: (Seq<char>, Option<Seq<char>>)| x.0)
}

/// The renames among the changes, in order.
pub open spec fn renames_of(e: Seq<(Seq<char>, Option<Seq<char>>)>) -> Seq<(Seq<char>, Seq<char>)>
    decreases e.len(),
{
    if e.len() == 0 {
        seq![]
    } else {
        match e.last().1 {
            Some(old) => renames_of(e.drop_last()).push((e.last().0, old)),
            None => renames_of(e.drop_last()),
        }
    }
}

/// The files that discovery found, without contract files.
pub open spec fn inventory_of(walked: Seq<Seq<char>>) -> Seq<Seq<char>> {
    walked.filter(|p: Seq<char>| !in_contracts(p))
}

/// The files a run may judge: the changed files that are neither contract
/// files nor excluded, or the whole inventory without a base.
pub open spec fn candidates_of(
    changes: Option<Seq<(Seq<char>, Option<Seq<char>>)>>,
    inventory: Seq<Seq<char>>,
) -> Seq<Seq<char>> {
    match changes {
        Some(e) => keys_of(e).filter(|p: Seq<char>| !in_contracts(p) && permitted(p)),
        None => inventory,
    }
}

/// Whether some change, by its path or its previous path, lies in the
/// scope.
pub open spec fn touches(e: Seq<(Seq<char>, Option<Seq<char>>)>, scope: Seq<char>) -> bool {
    exists|i: int|
        0 <= i < e.len() && (under(#[trigger] e[i].0, scope) || (e[i].1 matches Some(o) && under(
            o,
            scope,
        )))
}

/// The contracts a run keeps: with a base and no named contract, those
/// whose scope some change touches.
pub open spec fn kept_of(
    cs: Seq<ContractView>,
    changes: Option<Seq<(Seq<char>, Option<Seq<char>>)>>,
    named: bool,
) -> Seq<ContractView> {
    match changes {
        Some(e) => if named {
            cs
        } else {
            cs.filter(|c: ContractView| touches(e, c.scope))
        },
        None => cs,
    }
}

/// Whether a path is among the selected paths (all are when none are).
pub open spec fn selected(sel: Seq<Seq<char>>, prev: Seq<(Seq<char>, Seq<char>)>, p: Seq<char>) -> bool {
    sel.len() == 0 || exists|i: int| 0 <= i < sel.len() && scoped(prev, p, #[trigger] sel[i])
}

/// Whether a path lies in the scope of some kept contract.
pub open spec fn covered(cs: Seq<ContractView>, prev: Seq<(Seq<char>, Seq<char>)>, p: Seq<char>) -> bool {
    exists|i: int| 0 <= i < cs.len() && scoped(prev, p, #[trigger] cs[i].scope)
}

/// The files a run judges.
pub open spec fn files_of(
    candidates: Seq<Seq<char>>,
    sel: Seq<Seq<char>>,
    cs: Seq<ContractView>,
    prev: Seq<(Seq<char>, Seq<char>)>,
) -> Seq<Seq<char>> {
    candidates.filter(|p: Seq<char>| selected(sel, prev, p) && covered(cs, prev, p))
}

/// Whether change `i` names `x`, as its path or its previous path.
pub open spec fn mentions(e: Seq<(Seq<char>, Option<Seq<char>>)>, i: int, x: Seq<char>) -> bool {
    e[i].0 == x || e[i].1 == Some(x)
}

/// Whether a contract document is among the changed paths, new or old.
pub open spec fn changed_contract(e: Seq<(Seq<char>, Option<Seq<char>>)>, x: Seq<char>) -> bool {
    contract_document(x) && exists|i: int| 0 <= i < e.len() && #[trigger] mentions(e, i, x)
}

/// Whether only part of the project is selected: some paths are selected
/// and none of them is the whole project.
pub open spec fn partial_of(sel: Seq<Seq<char>>) -> bool {
    sel.len() > 0 && forall|i: int| 0 <= i < sel.len() ==> #[trigger] sel[i].len() > 0
}

fn inventory_from(walked: &Vec<String>) -> (r: Vec<String>)
    ensures
        strs(r@) == inventory_of(strs(walked@)),
{
    let ghost all = strs(walked@);
    let mut out: Vec<String> = Vec::new();
    let mut i: usize = 0;
    proof {
        reveal(Seq::filter);
        assert(all.take(0) =~= Seq::<Seq<char>>::empty());
        assert(strs(out@) =~= Seq::<Seq<char>>::empty());
    }
    while i < walked.len()
        invariant
            i <= walked@.len(),
            all == strs(walked@),
            strs(out@) == all.take(i as int).filter(|p: Seq<char>| !in_contracts(p)),
        decreases walked@.len() - i,
    {
        proof {
            reveal(Seq::filter);
            assert(all.take(i + 1).drop_last() =~= all.take(i as int));
        }
        let ghost ov = strs(out@);
        if !is_contract(walked[i].as_str()) {
            out.push(walked[i].clone());
            assert(strs(out@) =~= ov.push(walked@[i as int]@));
        }
        i += 1;
    }
    assert(all.take(walked@.len() as int) =~= all);
    out
}

fn candidates_from(e: &Vec<(String, Option<String>)>) -> (r: Vec<String>)
    ensures
        strs(r@) == keys_of(entry_views(e@)).filter(|p: Seq<char>| !in_contracts(p) && permitted(p)),
{
    let ghost all = keys_of(entry_views(e@));
    let mut out: Vec<String> = Vec::new();
    let mut i: usize = 0;
    proof {
        reveal(Seq::filter);
        assert(all.take(0) =~= Seq::<Seq<char>>::empty());
        assert(strs(out@) =~= Seq::<Seq<char>>::empty());
    }
    while i < e.len()
        invariant
            i <= e@.len(),
            all == keys_of(entry_views(e@)),
            strs(out@) == all.take(i as int).filter(|p: Seq<char>| !in_contracts(p) && permitted(p)),
        decreases e@.len() - i,
    {
        proof {
            reveal(Seq::filter);
            assert(all.take(i + 1).drop_last() =~= all.take(i as int));
        }
        let ghost ov = strs(out@);
        let p = e[i].0.as_str();
        if !is_contract(p) && allowed(p) {
            out.push(e[i].0.clone());
            assert(strs(out@) =~= ov.push(e@[i as int].0@));
        }
        i += 1;
    }
    assert(all.take(e@.len() as int) =~= all);
    out
}

fn renames_from(e: &Vec<(String, Option<String>)>) -> (r: Vec<(String, String)>)
    ensures
        pair_views(r@) == renames_of(entry_views(e@)),
{
    let ghost all = entry_views(e@);
    let mut out: Vec<(String, String)> = Vec::new();
    let mut i: usize = 0;
    proof {
        assert(all.take(0) =~= Seq::<(Seq<char>, Option<Seq<char>>)>::empty());
        assert(pair_views(out@) =~= Seq::<(Seq<char>, Seq<char>)>::empty());
    }
    while i < e.len()
        invariant
            i <= e@.len(),
            all == entry_views(e@),
            pair_views(out@) == renames_of(all.take(i as int)),
        decreases e@.len() - i,
    {
        proof {
            assert(all.take(i + 1).drop_last() =~= all.take(i as int));
        }
        let ghost ov = pair_views(out@);
        match &e[i].1 {
            Some(old) => {
                out.push((e[i].0.clone(), old.clone()));
                assert(pair_views(out@) =~= ov.push((e@[i as int].0@, old@)));
            },
            None => {},
        }
        i += 1;
    }
    assert(all.take(e@.len() as int) =~= all);
    out
}

fn touches_scope(e: &Vec<(String, Option<String>)>, scope: &str) -> (r: bool)
    ensures
        r == touches(entry_views(e@), scope@),
        forall|i: int| 0 <= i < e@.len() && under(#[trigger] entry_views(e@)[i].0, scope@) ==> r,
{
    let ghost all = entry_views(e@);
    let mut i: usize = 0;
    while i < e.len()
        invariant
            i <= e@.len(),
            all == entry_views(e@),
            forall|k: int|
                0 <= k < i ==> !(under(#[trigger] all[k].0, scope@) || (all[k].1 matches Some(o)
                    && under(o, scope@))),
        decreases e@.len() - i,
    {
        assert(all[i as int].0 == e@[i as int].0@);
        assert(all[i as int].1 == crate::contract::opt_view(e@[i as int].1));
        let hit = starts_with(e[i].0.as_str(), scope) || match &e[i].1 {
            Some(old) => starts_with(old.as_str(), scope),
            None => false,
        };
        if hit {
            assert(under(all[i as int].0, scope@) || (all[i as int].1 matches Some(o) && under(o, scope@)));
            return true;
        }
        i += 1;
    }
    false
}

fn kept_from(cs: Vec<Contract>, e: &Vec<(String, Option<String>)>) -> (r: Vec<Contract>)
    ensures
        cviews(r@) == cviews(cs@).filter(|c: ContractView| touches(entry_views(e@), c.scope)),
{
    let ghost all = cviews(cs@);
    let ghost pred = |c: ContractView| touches(entry_views(e@), c.scope);
    let mut rest = cs;
    let mut out: Vec<Contract> = Vec::new();
    let ghost taken: int = 0;
    proof {
        reveal(Seq::filter);
        assert(all.take(0) =~= Seq::<ContractView>::empty());
        assert(cviews(out@) =~= Seq::<ContractView>::empty());
        assert(all.skip(0) =~= all);
    }
    while rest.len() > 0
        invariant
            all.len() == taken + rest@.len(),
            0 <= taken <= all.len(),
            cviews(rest@) == all.skip(taken),
            cviews(out@) == all.take(taken).filter(pred),
            pred == (|c: ContractView| touches(entry_views(e@), c.scope)),
        decreases rest@.len(),
    {
        let ghost rv = cviews(rest@);
        let ghost ov = cviews(out@);
        let c = rest.remove(0);
        proof {
            reveal(Seq::filter);
            assert(cviews(rest@) =~= rv.drop_first());
            assert(all.take(taken + 1).drop_last() =~= all.take(taken));
            assert(all.take(taken + 1).last() == c@) by {
                assert(rv[0] == c@);
                assert(all.skip(taken)[0] == all[taken]);
            }
            assert(all.skip(taken + 1) =~= all.skip(taken).drop_first());
        }
        if touches_scope(e, c.scope.as_str()) {
            out.push(c);
            proof {
                assert(cviews(out@) =~= ov.push(c@));
            }
        }
        proof {
            taken = taken + 1;
        }
    }
    proof {
        assert(all.take(all.len() as int) =~= all);
    }
    out
}

fn scoped_in(prev: &Vec<(String, String)>, p: &str, scope: &str) -> (r: bool)
    ensures
        r == scoped(pair_views(prev@), p@, scope@),
{
    if starts_with(p, scope) {
        return true;
    }
    match previous_in(prev, p) {
        Some(old) => starts_with(old.as_str(), scope),
        None => false,
    }
}

fn is_selected(sel: &Vec<String>, prev: &Vec<(String, String)>, p: &str) -> (r: bool)
    ensures
        r == selected(strs(sel@), pair_views(prev@), p@),
{
    if sel.len() == 0 {
        return true;
    }
    let mut i: usize = 0;
    while i < sel.len()
        invariant
            i <= sel@.len(),
            forall|k: int| 0 <= k < i ==> !scoped(pair_views(prev@), p@, #[trigger] strs(sel@)[k]),
        decreases sel@.len() - i,
    {
        if scoped_in(prev, p, sel[i].as_str()) {
            assert(scoped(pair_views(prev@), p@, strs(sel@)[i as int]));
            return true;
        }
        i += 1;
    }
    false
}

fn is_covered(cs: &Vec<Contract>, prev: &Vec<(String, String)>, p: &str) -> (r: bool)
    ensures
        r == covered(cviews(cs@), pair_views(prev@), p@),
{
    let mut i: usize = 0;
    while i < cs.len()
        invariant
            i <= cs@.len(),
            forall|k: int| 0 <= k < i ==> !scoped(pair_views(prev@), p@, #[trigger] cviews(cs@)[k].scope),
        decreases cs@.len() - i,
    {
        if scoped_in(prev, p, cs[i].scope.as_str()) {
            assert(scoped(pair_views(prev@), p@, cviews(cs@)[i as int].scope));
            return true;
        }
        i += 1;
    }
    false
}

fn files_from(
    candidates: &Vec<String>,
    sel: &Vec<String>,
    cs: &Vec<Contract>,
    prev: &Vec<(String, String)>,
) -> (r: Vec<String>)
    ensures
        strs(r@) == files_of(strs(candidates@), strs(sel@), cviews(cs@), pair_views(prev@)),
{
    let ghost all = strs(candidates@);
    let ghost pred = |p: Seq<char>| selected(strs(sel@), pair_views(prev@), p) && covered(cviews(cs@), pair_views(prev@), p);
    let mut out: Vec<String> = Vec::new();
    let mut i: usize = 0;
    proof {
        reveal(Seq::filter);
        assert(all.take(0) =~= Seq::<Seq<char>>::empty());
        assert(strs(out@) =~= Seq::<Seq<char>>::empty());
    }
    while i < candidates.len()
        invariant
            i <= candidates@.len(),
            all == strs(candidates@),
            pred == (|p: Seq<char>| selected(strs(sel@), pair_views(prev@), p) && covered(cviews(cs@), pair_views(prev@), p)),
            strs(out@) == all.take(i as int).filter(pred),
        decreases candidates@.len() - i,
    {
        proof {
            reveal(Seq::filter);
            assert(all.take(i + 1).drop_last() =~= all.take(i as int));
        }
        let ghost ov = strs(out@);
        let p = candidates[i].as_str();
        if is_selected(sel, prev, p) && is_covered(cs, prev, p) {
            out.push(candidates[i].clone());
            assert(strs(out@) =~= ov.push(candidates@[i as int]@));
        }
        i += 1;
    }
    assert(all.take(candidates@.len() as int) =~= all);
    out
}

pub(crate) fn listed(v: &Vec<String>, x: &str) -> (r: bool)
    ensures
        r == strs(v@).contains(x@),
{
    let mut i: usize = 0;
    while i < v.len()
        invariant
            i <= v@.len(),
            forall|k: int| 0 <= k < i ==> #[trigger] strs(v@)[k] != x@,
        decreases v@.len() - i,
    {
        if is_text(&chars_of(v[i].as_str()), x) {
            assert(strs(v@)[i as int] == x@);
            return true;
        }
        i += 1;
    }
    false
}

fn deleted_from(files: &Vec<String>, absent: &Vec<String>) -> (r: Vec<String>)
    ensures
        strs(r@) == strs(files@).filter(|p: Seq<char>| strs(absent@).contains(p)),
{
    let ghost all = strs(files@);
    let mut out: Vec<String> = Vec::new();
    let mut i: usize = 0;
    proof {
        reveal(Seq::filter);
        assert(all.take(0) =~= Seq::<Seq<char>>::empty());
        assert(strs(out@) =~= Seq::<Seq<char>>::empty());
    }
    while i < files.len()
        invariant
            i <= files@.len(),
            all == strs(files@),
            strs(out@) == all.take(i as int).filter(|p: Seq<char>| strs(absent@).contains(p)),
        decreases files@.len() - i,
    {
        proof {
            reveal(Seq::filter);
            assert(all.take(i + 1).drop_last() =~= all.take(i as int));
        }
        let ghost ov = strs(out@);
        if listed(absent, files[i].as_str()) {
            out.push(files[i].clone());
            assert(strs(out@) =~= ov.push(files@[i as int]@));
        }
        i += 1;
    }
    assert(all.take(files@.len() as int) =~= all);
    out
}

fn contract_changes_from(e: &Vec<(String, Option<String>)>) -> (r: Vec<String>)
    ensures
        ascending(strs(r@)),
        forall|x: Seq<char>| strs(r@).contains(x) <==> changed_contract(entry_views(e@), x),
{
    assert(entry_views(e@).len() == e@.len());
    let ghost all = entry_views(e@);
    let mut out: Vec<String> = Vec::new();
    let mut i: usize = 0;
    proof {
        assert(strs(out@) =~= Seq::<Seq<char>>::empty());
    }
    while i < e.len()
        invariant
            i <= e@.len(),
            all == entry_views(e@),
            ascending(strs(out@)),
            forall|x: Seq<char>| #![trigger strs(out@).contains(x)] strs(out@).contains(x) <==> (contract_document(x) && exists|k: int|
                0 <= k < i && #[trigger] mentions(all, k, x)),
        decreases e@.len() - i,
    {
        let ghost before = strs(out@);
        assert(all[i as int].0 == e@[i as int].0@);
        assert(all[i as int].1 == crate::contract::opt_view(e@[i as int].1));
        let add_new = is_contract_document(e[i].0.as_str());
        if add_new {
            insert_sorted(&mut out, e[i].0.clone());
        }
        let ghost mid = strs(out@);
        assert(forall|y: Seq<char>| mid.contains(y) <==> (before.contains(y) || (add_new && y == all[i as int].0)));
        let add_old = match &e[i].1 {
            Some(old) => is_contract_document(old.as_str()),
            None => false,
        };
        if add_old {
            match &e[i].1 {
                Some(old) => {
                    insert_sorted(&mut out, old.clone());
                },
                None => {},
            }
        }
        assert(forall|y: Seq<char>| strs(out@).contains(y) <==> (mid.contains(y) || (add_old && all[i as int].1 == Some(y))));
        let ghost j = i as int;
        i += 1;
        proof {
            assert forall|x: Seq<char>| #![trigger strs(out@).contains(x)] strs(out@).contains(x) <==> (contract_document(x)
                && exists|k: int| 0 <= k < i && #[trigger] mentions(all, k, x)) by {
                assert(before.contains(x) <==> (contract_document(x) && exists|k: int| 0 <= k < j && #[trigger] mentions(all, k, x)));
                if strs(out@).contains(x) {
                    if before.contains(x) {
                        let k = choose|k: int| 0 <= k < j && #[trigger] mentions(all, k, x);
                        assert(0 <= k < i && mentions(all, k, x));
                    } else {
                        assert(mentions(all, j, x));
                        assert(contract_document(x));
                    }
                }
                if contract_document(x) && exists|k: int| 0 <= k < i && #[trigger] mentions(all, k, x) {
                    let k = choose|k: int| 0 <= k < i && #[trigger] mentions(all, k, x);
                    if k < j {
                        assert(exists|k: int| 0 <= k < j && #[trigger] mentions(all, k, x));
                        assert(before.contains(x));
                    } else {
                        assert(k == j);
                    }
                }
            }
        }
    }
    out
}

fn all_nonempty(sel: &Vec<String>) -> (r: bool)
    ensures
        r == forall|i: int| 0 <= i < sel@.len() ==> #[trigger] strs(sel@)[i].len() > 0,
{
    let mut i: usize = 0;
    while i < sel.len()
        invariant
            i <= sel@.len(),
            forall|k: int| 0 <= k < i ==> #[trigger] strs(sel@)[k].len() > 0,
        decreases sel@.len() - i,
    {
        if chars_of(sel[i].as_str()).len() == 0 {
            assert(strs(sel@)[i as int].len() == 0);
            return false;
        }
        i += 1;
    }
    true
}

pub open spec fn changes_view(c: Option<Changes>) -> Option<Seq<(Seq<char>, Option<Seq<char>>)>> {
    match c {
        Some(c) => Some(entry_views(c.paths@)),
        None => None,
    }
}

/// Plans a run over the project at `root`: `contracts` are the selected
/// contracts in run order, `selectors` the selected paths relative to the
/// root, `changes` the changes against the base when there is one,
/// `walked` every file that discovery found, `absent` the candidate paths
/// that no longer exist and `head` the current commit.
pub fn plan(
    root: String,
    contracts: Vec<Contract>,
    selection: &Selection,
    selectors: Vec<String>,
    changes: Option<Changes>,
    walked: &Vec<String>,
    absent: &Vec<String>,
    head: Option<String>,
) -> (r: Plan)
    ensures
        r.root == root,
        r.head == head,
        strs(r.inventory@) == inventory_of(strs(walked@)),
        pair_views(r.previous_paths@) == match changes_view(changes) {
            Some(e) => renames_of(e),
            None => seq![],
        },
        cviews(r.contracts@) == kept_of(cviews(contracts@), changes_view(changes), selection.contract is Some),
        strs(r.files@) == files_of(
            candidates_of(changes_view(changes), inventory_of(strs(walked@))),
            strs(selectors@),
            cviews(r.contracts@),
            pair_views(r.previous_paths@),
        ),
        strs(r.deleted@) == strs(r.files@).filter(|p: Seq<char>| strs(absent@).contains(p)),
        ascending(strs(r.contract_changes@)),
        forall|x: Seq<char>| strs(r.contract_changes@).contains(x) <==> (changes_view(changes) matches Some(e) && changed_contract(e, x)),
        r.mode == if changes is Some { Mode::Diff } else { Mode::Full },
        r.base == match changes { Some(c) => Some(c.base), None => None },
        r.partial == partial_of(strs(selectors@)),
        r.context@.len() == 0,
{
    let inventory = inventory_from(walked);
    let (candidates, previous_paths, contract_changes, kept, base) = match changes {
        Some(c) => {
            let candidates = candidates_from(&c.paths);
            let previous_paths = renames_from(&c.paths);
            let contract_changes = contract_changes_from(&c.paths);
            let kept = if selection.contract.is_none() {
                kept_from(contracts, &c.paths)
            } else {
                contracts
            };
            (candidates, previous_paths, contract_changes, kept, Some(c.base))
        },
        None => {
            let mut copy: Vec<String> = Vec::new();
            let mut i: usize = 0;
            while i < inventory.len()
                invariant
                    i <= inventory@.len(),
                    strs(copy@) == strs(inventory@).take(i as int),
                decreases inventory@.len() - i,
            {
                let ghost before = strs(copy@);
                copy.push(inventory[i].clone());
                assert(strs(copy@) =~= before.push(inventory@[i as int]@));
                assert(strs(inventory@).take(i + 1) =~= strs(inventory@).take(i as int).push(inventory@[i as int]@));
                i += 1;
            }
            assert(strs(inventory@).take(inventory@.len() as int) =~= strs(inventory@));
            let none: Vec<(String, String)> = Vec::new();
            let empty: Vec<String> = Vec::new();
            assert(pair_views(none@) =~= Seq::<(Seq<char>, Seq<char>)>::empty());
            assert(strs(empty@) =~= Seq::<Seq<char>>::empty());
            (copy, none, empty, contracts, None)
        },
    };
    let files = files_from(&candidates, &selectors, &kept, &previous_paths);
    let deleted = deleted_from(&files, absent);
    let partial = selectors.len() > 0 && all_nonempty(&selectors);
    let mode = if base.is_some() { Mode::Diff } else { Mode::Full };
    Plan {
        root,
        contracts: kept,
        files,
        deleted,
        base,
        head,
        partial,
        mode,
        inventory,
        previous_paths,
        context: Vec::new(),
        contract_changes,
    }
}


/// In a plan against a base without a named contract, a contract is kept
/// whenever any change, by its path or the path it was renamed from, lies
/// under the contract's scope; and a contract that no change reaches is
/// dropped.
pub proof fn changed_scopes_keep_their_contracts(
    cs: Seq<ContractView>,
    e: Seq<(Seq<char>, Option<Seq<char>>)>,
    c: ContractView,
)
    ensures
        cs.contains(c) && (exists|i: int|
            0 <= i < e.len() && (under(#[trigger] e[i].0, c.scope) || (e[i].1 matches Some(o) && under(o, c.scope))))
            ==> kept_of(cs, Some(e), false).contains(c),
        (forall|i: int|
            0 <= i < e.len() ==> !under(#[trigger] e[i].0, c.scope) && !(e[i].1 matches Some(o) && under(o, c.scope)))
            ==> !kept_of(cs, Some(e), false).contains(c),
        kept_of(cs, Some(e), true) == cs,
        kept_of(cs, None, false) == cs,
{
    let pred = |x: ContractView| touches(e, x.scope);
    let f = cs.filter(pred);
    f.filter_lemma(pred);
    if cs.contains(c) && exists|i: int|
        0 <= i < e.len() && (under(#[trigger] e[i].0, c.scope) || (e[i].1 matches Some(o) && under(o, c.scope))) {
        let j = choose|j: int| 0 <= j < cs.len() && cs[j] == c;
        assert(pred(cs[j]));
    }
    if forall|i: int|
        0 <= i < e.len() ==> !under(#[trigger] e[i].0, c.scope) && !(e[i].1 matches Some(o) && under(o, c.scope)) {
        assert(!touches(e, c.scope));
        if f.contains(c) {
            let j = choose|j: int| 0 <= j < f.len() && f[j] == c;
            assert(pred(f[j]));
        }
    }
}

} // verus!
