//! The outputs of the commands that only read contracts: validation, the
//! list of contracts that cover a path, one contract's document, and the
//! pairs a dry run would check; and the supplementary context a run may be
//! given.
use vstd::prelude::*;
use crate::change::{Change, MAX_FILE_BYTES};
use crate::contract::Contract;
use crate::discovery::{Plan, listed};
use crate::order::{ascending, insert_sorted, strs};
use crate::parse::blake3_digest;
use crate::paths::{allowed as allowed_path, inward, is_contract, plain, permitted, in_contracts, under};
use crate::runner::{subjects, subjects_of};
use crate::text::{append, chars_of, decimal, decimal_of, string_of, text, text_with};

verus! {

broadcast use vstd::seq_lib::group_seq_properties;

pub open spec fn lines_view(v: Seq<String>) -> Seq<Seq<char>> {
    v.map_values(|l: String| l@)
}

/// `N contracts valid`, or an error when there are none.
pub fn validated(contracts: &Vec<Contract>) -> (r: Result<String, String>)
    ensures
        contracts@.len() == 0 ==> (r matches Err(e) && e@ == "no contracts found"@),
        contracts@.len() > 0 ==> (r matches Ok(t) && t@ == decimal(contracts@.len()) + " contracts valid"@),
{
    if contracts.len() == 0 {
        return Err(text("no contracts found"));
    }
    let mut v = decimal_of(contracts.len());
    append(&mut v, " contracts valid");
    Ok(string_of(&v))
}

/// `NAME  PATH` for a contract.
pub open spec fn contract_line(c: Contract) -> Seq<char> {
    c.name@ + "  "@ + c.path@
}

fn line_of(c: &Contract) -> (r: String)
    ensures
        r@ == contract_line(*c),
{
    let mut v = chars_of(c.name.as_str());
    append(&mut v, "  ");
    append(&mut v, c.path.as_str());
    string_of(&v)
}

/// The contracts that cover a path: those whose scope begins it (all of
/// them without a path).
pub open spec fn covering(contracts: Seq<Contract>, path: Option<Seq<char>>) -> Seq<Seq<char>> {
    contracts.filter(|c: Contract| path matches Some(p) ==> under(p, c.scope@)).map_values(|c: Contract| contract_line(c))
}

/// Lists the contracts that cover a path relative to the project root.
pub fn contracts_for(contracts: &Vec<Contract>, path: Option<&str>) -> (r: Result<Vec<String>, String>)
    ensures
        match path {
            Some(p) => !inward(p@) ==> (r matches Err(e) && e@ == "--for path must be relative to the project root"@),
            None => true,
        },
        (path matches Some(p) ==> inward(p@)) ==> (r matches Ok(v) && lines_view(v@) == covering(
            contracts@,
            match path {
                Some(p) => Some(p@),
                None => None,
            },
        )),
{
    if let Some(p) = path {
        if !crate::paths::is_inward(&chars_of(p)) {
            return Err(text("--for path must be relative to the project root"));
        }
    }
    let ghost sp = match path {
        Some(p) => Some(p@),
        None => None::<Seq<char>>,
    };
    let ghost keep = contracts@.filter(|c: Contract| sp matches Some(p) ==> under(p, c.scope@));
    let mut out: Vec<String> = Vec::new();
    let mut i: usize = 0;
    proof {
        reveal(Seq::filter);
        assert(contracts@.take(0) =~= Seq::<Contract>::empty());
        assert(lines_view(out@) =~= Seq::<Seq<char>>::empty());
    }
    while i < contracts.len()
        invariant
            i <= contracts@.len(),
            sp == match path {
                Some(p) => Some(p@),
                None => None::<Seq<char>>,
            },
            lines_view(out@) == contracts@.take(i as int).filter(|c: Contract| sp matches Some(p) ==> under(p, c.scope@)).map_values(
                |c: Contract| contract_line(c),
            ),
        decreases contracts@.len() - i,
    {
        proof {
            reveal(Seq::filter);
            assert(contracts@.take(i + 1).drop_last() =~= contracts@.take(i as int));
        }
        let c = &contracts[i];
        let covers = match path {
            Some(p) => crate::paths::starts_with(p, c.scope.as_str()),
            None => true,
        };
        if covers {
            let ghost ov = lines_view(out@);
            out.push(line_of(c));
            assert(lines_view(out@) =~= ov.push(contract_line(*c)));
        }
        i += 1;
    }
    assert(contracts@.take(contracts@.len() as int) =~= contracts@);
    Ok(out)
}

/// The contract named `name`, shown as its path, a blank line and its
/// document.
pub fn view_contract(contracts: &Vec<Contract>, name: &str) -> (r: Result<String, String>)
    ensures
        match r {
            Ok(t) => exists|i: int| 0 <= i < contracts@.len() && #[trigger] contracts@[i].name@ == name@ && t@
                == contracts@[i].path@ + "\n\n"@ + contracts@[i].document@ && forall|j: int| 0 <= j < i ==> contracts@[j].name@ != name@,
            Err(e) => (forall|i: int| 0 <= i < contracts@.len() ==> #[trigger] contracts@[i].name@ != name@) && e@
                == "unknown contract"@,
        },
{
    let mut i: usize = 0;
    while i < contracts.len()
        invariant
            i <= contracts@.len(),
            forall|j: int| 0 <= j < i ==> #[trigger] contracts@[j].name@ != name@,
        decreases contracts@.len() - i,
    {
        if crate::text::is_text(&chars_of(contracts[i].name.as_str()), name) {
            let mut v = chars_of(contracts[i].path.as_str());
            append(&mut v, "\n\n");
            append(&mut v, contracts[i].document.as_str());
            return Ok(string_of(&v));
        }
        i += 1;
    }
    Err(text("unknown contract"))
}

/// The base a check compares against: `HEAD` of the snapshot when a patch
/// is applied, else the base asked for.
pub fn selection_base(patched: bool, base: Option<String>) -> (r: Option<String>)
    ensures
        patched ==> crate::contract::opt_view(r) == Some("HEAD"@),
        !patched ==> r == base,
{
    if patched {
        Some(text("HEAD"))
    } else {
        base
    }
}

/// The pairs a dry run lists: for each contract, in run order, the planned
/// files it would judge, as `NAME  PATH`.
pub open spec fn dry_pairs(plan: Plan) -> Seq<Seq<char>>
    decreases plan.contracts@.len(),
{
    dry_pairs_upto(plan, plan.contracts@.len() as int)
}

pub open spec fn dry_pairs_upto(plan: Plan, n: int) -> Seq<Seq<char>>
    decreases n,
{
    if n <= 0 {
        seq![]
    } else {
        let c = plan.contracts@[n - 1];
        dry_pairs_upto(plan, n - 1) + subjects_of(plan, c.scope@).map_values(|p: Seq<char>| c.name@ + "  "@ + p)
    }
}

pub fn dry_run_lines(plan: &Plan) -> (r: Vec<String>)
    ensures
        lines_view(r@) == dry_pairs(*plan),
{
    let mut out: Vec<String> = Vec::new();
    let mut i: usize = 0;
    assert(lines_view(out@) =~= Seq::<Seq<char>>::empty());
    while i < plan.contracts.len()
        invariant
            i <= plan.contracts@.len(),
            lines_view(out@) == dry_pairs_upto(*plan, i as int),
        decreases plan.contracts@.len() - i,
    {
        let c = &plan.contracts[i];
        let files = subjects(plan, c.scope.as_str());
        let ghost base = lines_view(out@);
        let ghost fv = strs(files@);
        let mut k: usize = 0;
        while k < files.len()
            invariant
                k <= files@.len(),
                fv == strs(files@),
                lines_view(out@) == base + fv.take(k as int).map_values(|p: Seq<char>| c.name@ + "  "@ + p),
            decreases files@.len() - k,
        {
            let mut v = chars_of(c.name.as_str());
            append(&mut v, "  ");
            append(&mut v, files[k].as_str());
            let ghost ov = lines_view(out@);
            out.push(string_of(&v));
            assert(lines_view(out@) =~= ov.push(c.name@ + "  "@ + files@[k as int]@));
            assert(fv.take(k + 1).map_values(|p: Seq<char>| c.name@ + "  "@ + p) =~= fv.take(k as int).map_values(
                |p: Seq<char>| c.name@ + "  "@ + p,
            ).push(c.name@ + "  "@ + fv[k as int]));
            k += 1;
        }
        assert(fv.take(files@.len() as int) =~= fv);
        i += 1;
    }
    out
}

// ---------------------------------------------------------------------
// Supplementary context
// ---------------------------------------------------------------------

/// A path that may be given as context: a repository source file, named
/// by normal components, outside contract directories.
pub open spec fn context_source(p: Seq<char>) -> bool {
    plain(p) && permitted(p) && !in_contracts(p)
}

pub fn check_context_path(path: &str) -> (r: Result<(), String>)
    ensures
        r is Ok <==> context_source(path@),
        r matches Err(e) ==> e@ == "context paths must be repository source files: "@ + path@,
{
    if crate::paths::is_plain(&chars_of(path)) && allowed_path(path) && !is_contract(path) {
        Ok(())
    } else {
        Err(text_with("context paths must be repository source files: ", &chars_of(path)))
    }
}

/// Notes a context path; says whether it was new.
pub fn first_time(seen: &mut Vec<String>, path: &str) -> (r: bool)
    requires
        ascending(strs(old(seen)@)),
    ensures
        ascending(strs(final(seen)@)),
        r == !strs(old(seen)@).contains(path@),
        forall|y: Seq<char>| strs(final(seen)@).contains(y) <==> (strs(old(seen)@).contains(y) || y == path@),
{
    if listed(seen, path) {
        return false;
    }
    insert_sorted(seen, text(path));
    true
}

/// A context path that escapes the repository once resolved is refused.
pub fn check_context_inside(resolved: &str, root: &str) -> (r: Result<(), String>)
    ensures
        r is Ok <==> under(resolved@, root@),
        r matches Err(e) ==> e@ == "context path escapes repository"@,
{
    if crate::paths::starts_with(resolved, root) {
        Ok(())
    } else {
        Err(text("context path escapes repository"))
    }
}

impl Plan {
    /// Adds the change record of a context file, which must exist on some
    /// side.
    pub fn add_context(&mut self, change: Change) -> (r: Result<(), String>)
        ensures
            change.before is None && change.after is None ==> (r matches Err(e) && e@ == "context file does not exist: "@
                + change.path@ && *final(self) == *old(self)),
            !(change.before is None && change.after is None) ==> r is Ok && final(self).context@ == old(
                self,
            ).context@.push(change) && *final(self) == (Plan { context: final(self).context, ..*old(self) }),
    {
        if change.before.is_none() && change.after.is_none() {
            return Err(text_with("context file does not exist: ", &chars_of(change.path.as_str())));
        }
        self.context.push(change);
        Ok(())
    }
}

/// The encoded context must fit the limit on inputs.
pub fn check_context_size(bytes: usize) -> (r: Result<(), String>)
    ensures
        r is Ok <==> bytes <= MAX_FILE_BYTES,
        r matches Err(e) ==> e@ == "supplementary context exceeds 64 KiB"@,
{
    if bytes <= MAX_FILE_BYTES {
        Ok(())
    } else {
        Err(text("supplementary context exceeds 64 KiB"))
    }
}


/// A contract document must be a regular file of at most 64 KiB.
pub fn check_contract_file(path: &str, regular: bool, size: u64) -> (r: Result<(), String>)
    ensures
        !regular ==> (r matches Err(e) && e@ == "contract must be a regular file: "@ + path@),
        regular && size > 65536 ==> (r matches Err(e) && e@ == "contract too large: "@ + path@),
        regular && size <= 65536 ==> r is Ok,
{
    if !regular {
        Err(text_with("contract must be a regular file: ", &chars_of(path)))
    } else if size > 65536 {
        Err(text_with("contract too large: ", &chars_of(path)))
    } else {
        Ok(())
    }
}

} // verus!
