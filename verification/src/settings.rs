//! Alias and configuration planning: the fixed alias table, the shape of
//! each alias value, the main-branch detection policy, the configuration
//! keys written on install, the version gate for the undo machinery, and
//! the predicate that picks out tool-owned include paths on uninstall.
//! Repository queries, prompting and the configuration writes themselves
//! are the caller's; everything here computes plans from plain values.

use vstd::prelude::*;
use vstd::string::StrSliceExecFns;
use vstd::string::StringSliceAdditionalSpecFns;

use crate::bytes::bytes_eq;
use crate::bytes::opt_view;
use crate::bytes::subvec;
use crate::lines::line_views;

verus! {

/// The value stored under an alias name: the wrapped single-token form
/// when the documentation-page-aware build mode is active (so that help
/// lookups name the subcommand), else the two-token form.
pub open spec fn alias_command(to: Seq<u8>, use_wrapped_alias: bool) -> Seq<u8> {
    if use_wrapped_alias {
        "branchless-".spec_bytes() + to
    } else {
        "branchless ".spec_bytes() + to
    }
}

/// One alias: the configuration key `alias.<from>` and its command.
pub fn install_alias(from: &Vec<u8>, to: &Vec<u8>, use_wrapped_alias: bool) -> (r: (Vec<u8>, Vec<u8>))
    ensures
        r.0@ == "alias.".spec_bytes() + from@,
        r.1@ == alias_command(to@, use_wrapped_alias),
{
    let mut key = ("alias.").as_bytes_vec();
    key.extend_from_slice(from.as_slice());
    let mut value = if use_wrapped_alias {
        ("branchless-").as_bytes_vec()
    } else {
        ("branchless ").as_bytes_vec()
    };
    value.extend_from_slice(to.as_slice());
    (key, value)
}

/// The fixed table of alias names and the subcommand each stands for.
pub open spec fn alias_table() -> Seq<(Seq<u8>, Seq<u8>)> {
    seq![
        ("amend".spec_bytes(), "amend".spec_bytes()),
        ("co".spec_bytes(), "checkout".spec_bytes()),
        ("hide".spec_bytes(), "hide".spec_bytes()),
        ("move".spec_bytes(), "move".spec_bytes()),
        ("next".spec_bytes(), "next".spec_bytes()),
        ("prev".spec_bytes(), "prev".spec_bytes()),
        ("restack".spec_bytes(), "restack".spec_bytes()),
        ("sl".spec_bytes(), "smartlog".spec_bytes()),
        ("smartlog".spec_bytes(), "smartlog".spec_bytes()),
        ("undo".spec_bytes(), "undo".spec_bytes()),
        ("unhide".spec_bytes(), "unhide".spec_bytes()),
    ]
}

/// The alias table as values.
pub fn all_aliases() -> (r: Vec<(Vec<u8>, Vec<u8>)>)
    ensures
        r@.len() == alias_table().len(),
        forall|i: int|
            0 <= i < r@.len() ==> (#[trigger] r@[i]).0@ == alias_table()[i].0 && r@[i].1@
                == alias_table()[i].1,
{
    let mut r: Vec<(Vec<u8>, Vec<u8>)> = Vec::new();
    r.push((("amend").as_bytes_vec(), ("amend").as_bytes_vec()));
    r.push((("co").as_bytes_vec(), ("checkout").as_bytes_vec()));
    r.push((("hide").as_bytes_vec(), ("hide").as_bytes_vec()));
    r.push((("move").as_bytes_vec(), ("move").as_bytes_vec()));
    r.push((("next").as_bytes_vec(), ("next").as_bytes_vec()));
    r.push((("prev").as_bytes_vec(), ("prev").as_bytes_vec()));
    r.push((("restack").as_bytes_vec(), ("restack").as_bytes_vec()));
    r.push((("sl").as_bytes_vec(), ("smartlog").as_bytes_vec()));
    r.push((("smartlog").as_bytes_vec(), ("smartlog").as_bytes_vec()));
    r.push((("undo").as_bytes_vec(), ("undo").as_bytes_vec()));
    r.push((("unhide").as_bytes_vec(), ("unhide").as_bytes_vec()));
    proof {
        assert forall|i: int|
            0 <= i < r@.len() implies (#[trigger] r@[i]).0@ == alias_table()[i].0 && r@[i].1@
            == alias_table()[i].1 by {
            assert(r@[0].0@ == alias_table()[0].0 && r@[0].1@ == alias_table()[0].1);
            assert(r@[1].0@ == alias_table()[1].0 && r@[1].1@ == alias_table()[1].1);
            assert(r@[2].0@ == alias_table()[2].0 && r@[2].1@ == alias_table()[2].1);
            assert(r@[3].0@ == alias_table()[3].0 && r@[3].1@ == alias_table()[3].1);
            assert(r@[4].0@ == alias_table()[4].0 && r@[4].1@ == alias_table()[4].1);
            assert(r@[5].0@ == alias_table()[5].0 && r@[5].1@ == alias_table()[5].1);
            assert(r@[6].0@ == alias_table()[6].0 && r@[6].1@ == alias_table()[6].1);
            assert(r@[7].0@ == alias_table()[7].0 && r@[7].1@ == alias_table()[7].1);
            assert(r@[8].0@ == alias_table()[8].0 && r@[8].1@ == alias_table()[8].1);
            assert(r@[9].0@ == alias_table()[9].0 && r@[9].1@ == alias_table()[9].1);
            assert(r@[10].0@ == alias_table()[10].0 && r@[10].1@ == alias_table()[10].1);
        }
    }
    r
}

/// The configuration entries that register every alias of the table.
pub fn install_aliases(use_wrapped_alias: bool) -> (r: Vec<(Vec<u8>, Vec<u8>)>)
    ensures
        r@.len() == alias_table().len(),
        forall|i: int|
            0 <= i < r@.len() ==> (#[trigger] r@[i]).0@ == "alias.".spec_bytes()
                + alias_table()[i].0 && r@[i].1@ == alias_command(
                alias_table()[i].1,
                use_wrapped_alias,
            ),
{
    let aliases = all_aliases();
    let n: usize = aliases.len();
    let mut r: Vec<(Vec<u8>, Vec<u8>)> = Vec::new();
    let mut i: usize = 0;
    while i < n
        invariant
            n == alias_table().len(),
            n == aliases@.len(),
            0 <= i <= n,
            r@.len() == i,
            forall|j: int|
                0 <= j < aliases@.len() ==> (#[trigger] aliases@[j]).0@ == alias_table()[j].0
                    && aliases@[j].1@ == alias_table()[j].1,
            forall|j: int|
                0 <= j < i ==> (#[trigger] r@[j]).0@ == "alias.".spec_bytes() + alias_table()[j].0
                    && r@[j].1@ == alias_command(alias_table()[j].1, use_wrapped_alias),
        decreases n - i,
    {
        let entry = &aliases[i];
        let kv = install_alias(&entry.0, &entry.1, use_wrapped_alias);
        r.push(kv);
        i = i + 1;
    }
    r
}

/// Strict ordering of version triples.
pub open spec fn version_lt(a1: int, b1: int, c1: int, a2: int, b2: int, c2: int) -> bool {
    a1 < a2 || (a1 == a2 && (b1 < b2 || (b1 == b2 && c1 < c2)))
}

/// Whether the given version is below the minimum that the undo machinery
/// needs; a version below it only draws a warning, never a failure.
pub fn version_below_minimum(major: u64, minor: u64, patch: u64) -> (r: bool)
    ensures
        r == version_lt(major as int, minor as int, patch as int, 2, 29, 0),
{
    major < 2 || (major == 2 && minor < 29)
}

/// Whether a branch of the given name exists.
pub open spec fn contains_branch(branches: Seq<Seq<u8>>, name: Seq<u8>) -> bool {
    exists|j: int| 0 <= j < branches.len() && branches[j] == name
}

fn branch_exists(local_branches: &Vec<Vec<u8>>, name: &Vec<u8>) -> (r: bool)
    ensures
        r == contains_branch(line_views(local_branches@), name@),
{
    let n: usize = local_branches.len();
    let mut i: usize = 0;
    while i < n
        invariant
            n == local_branches@.len(),
            0 <= i <= n,
            forall|j: int| 0 <= j < i ==> line_views(local_branches@)[j] != name@,
        decreases n - i,
    {
        if bytes_eq(&local_branches[i], name) {
            assert(line_views(local_branches@)[i as int] == name@);
            return true;
        }
        i = i + 1;
    }
    false
}

/// The well-known names tried, in order, when no default branch helps.
pub open spec fn branch_candidates() -> Seq<Seq<u8>> {
    seq![
        "master".spec_bytes(),
        "main".spec_bytes(),
        "mainline".spec_bytes(),
        "devel".spec_bytes(),
        "develop".spec_bytes(),
        "development".spec_bytes(),
        "trunk".spec_bytes(),
    ]
}

fn candidate_names() -> (r: Vec<Vec<u8>>)
    ensures
        line_views(r@) == branch_candidates(),
{
    let mut r: Vec<Vec<u8>> = Vec::new();
    r.push(("master").as_bytes_vec());
    r.push(("main").as_bytes_vec());
    r.push(("mainline").as_bytes_vec());
    r.push(("devel").as_bytes_vec());
    r.push(("develop").as_bytes_vec());
    r.push(("development").as_bytes_vec());
    r.push(("trunk").as_bytes_vec());
    proof {
        assert(line_views(r@) =~= branch_candidates());
    }
    r
}

/// The first candidate name that names an existing branch.
pub open spec fn first_existing_candidate(cands: Seq<Seq<u8>>, branches: Seq<Seq<u8>>) -> Option<
    Seq<u8>,
>
    decreases cands.len(),
{
    if cands.len() == 0 {
        None
    } else if contains_branch(branches, cands[0]) {
        Some(cands[0])
    } else {
        first_existing_candidate(cands.drop_first(), branches)
    }
}

/// The main-branch detection policy: the repository's default branch name
/// when a local branch of that name exists, else the first well-known
/// candidate that exists, else nothing.
pub open spec fn detected_main_branch(
    default_branch_name: Option<Seq<u8>>,
    branches: Seq<Seq<u8>>,
) -> Option<Seq<u8>> {
    match default_branch_name {
        Some(d) => if contains_branch(branches, d) {
            Some(d)
        } else {
            first_existing_candidate(branch_candidates(), branches)
        },
        None => first_existing_candidate(branch_candidates(), branches),
    }
}

/// Detect the main branch from the default branch name the repository
/// reports and the list of local branch names.
pub fn detect_main_branch_name(
    default_branch_name: &Option<Vec<u8>>,
    local_branches: &Vec<Vec<u8>>,
) -> (r: Option<Vec<u8>>)
    ensures
        opt_view(r) == detected_main_branch(
            opt_view(*default_branch_name),
            line_views(local_branches@),
        ),
{
    let ghost bs = line_views(local_branches@);
    if let Some(d) = default_branch_name {
        if branch_exists(local_branches, d) {
            let out = subvec(d, 0, d.len());
            proof {
                assert(out@ =~= d@);
            }
            return Some(out);
        }
    }
    let cands = candidate_names();
    let n: usize = cands.len();
    let mut i: usize = 0;
    proof {
        assert(branch_candidates().skip(0) =~= branch_candidates());
    }
    while i < n
        invariant
            n == cands@.len(),
            line_views(cands@) == branch_candidates(),
            bs == line_views(local_branches@),
            0 <= i <= n,
            detected_main_branch(opt_view(*default_branch_name), bs)
                == first_existing_candidate(branch_candidates(), bs),
            first_existing_candidate(branch_candidates(), bs) == first_existing_candidate(
                branch_candidates().skip(i as int),
                bs,
            ),
        decreases n - i,
    {
        proof {
            assert(branch_candidates().skip(i as int)[0] == branch_candidates()[i as int]);
            assert(branch_candidates().skip(i as int).drop_first() =~= branch_candidates().skip(
                i as int + 1,
            ));
        }
        if branch_exists(local_branches, &cands[i]) {
            let c = &cands[i];
            proof {
                assert(c@ == line_views(cands@)[i as int]);
                assert(contains_branch(bs, branch_candidates().skip(i as int)[0]));
                assert(first_existing_candidate(branch_candidates().skip(i as int), bs) == Some(
                    branch_candidates()[i as int],
                ));
            }
            let out = subvec(c, 0, c.len());
            proof {
                assert(out@ =~= c@);
            }
            return Some(out);
        }
        i = i + 1;
    }
    proof {
        assert(branch_candidates().skip(n as int) =~= Seq::<Seq<u8>>::empty());
    }
    None
}

/// An ASCII whitespace byte, as trimmed from prompted input.
pub open spec fn is_space(b: u8) -> bool {
    b == 0x20 || b == 0x09 || b == 0x0a || b == 0x0d
}

pub open spec fn trim_start_spec(s: Seq<u8>) -> Seq<u8>
    decreases s.len(),
{
    if s.len() > 0 && is_space(s[0]) {
        trim_start_spec(s.drop_first())
    } else {
        s
    }
}

pub open spec fn trim_end_spec(s: Seq<u8>) -> Seq<u8>
    decreases s.len(),
{
    if s.len() > 0 && is_space(s[s.len() - 1]) {
        trim_end_spec(s.drop_last())
    } else {
        s
    }
}

/// The input with leading and trailing whitespace removed.
pub open spec fn trimmed(s: Seq<u8>) -> Seq<u8> {
    trim_end_spec(trim_start_spec(s))
}

fn is_space_byte(b: u8) -> (r: bool)
    ensures
        r == is_space(b),
{
    b == 0x20 || b == 0x09 || b == 0x0a || b == 0x0d
}

/// Remove leading and trailing whitespace.
pub fn trim_bytes(s: &Vec<u8>) -> (r: Vec<u8>)
    ensures
        r@ == trimmed(s@),
{
    let n: usize = s.len();
    let mut lo: usize = 0;
    proof {
        assert(s@.skip(0) =~= s@);
    }
    while lo < n && is_space_byte(s[lo])
        invariant
            n == s@.len(),
            0 <= lo <= n,
            trim_start_spec(s@) == trim_start_spec(s@.skip(lo as int)),
        decreases n - lo,
    {
        proof {
            assert(s@.skip(lo as int)[0] == s@[lo as int]);
            assert(s@.skip(lo as int).drop_first() =~= s@.skip(lo as int + 1));
        }
        lo = lo + 1;
    }
    proof {
        if lo == n {
            assert(s@.skip(lo as int) =~= Seq::<u8>::empty());
        }
        assert(trim_start_spec(s@.skip(lo as int)) == s@.skip(lo as int));
        assert(s@.skip(lo as int) =~= s@.subrange(lo as int, n as int));
    }
    let mut hi: usize = n;
    while hi > lo && is_space_byte(s[hi - 1])
        invariant
            n == s@.len(),
            0 <= lo <= hi <= n,
            trim_start_spec(s@) == s@.subrange(lo as int, n as int),
            trim_end_spec(s@.subrange(lo as int, n as int)) == trim_end_spec(
                s@.subrange(lo as int, hi as int),
            ),
        decreases hi,
    {
        proof {
            let part = s@.subrange(lo as int, hi as int);
            assert(part[part.len() - 1] == s@[hi - 1]);
            assert(part.drop_last() =~= s@.subrange(lo as int, hi as int - 1));
        }
        hi = hi - 1;
    }
    proof {
        assert(trim_end_spec(s@.subrange(lo as int, hi as int)) == s@.subrange(
            lo as int,
            hi as int,
        ));
    }
    subvec(s, lo, hi)
}

/// The value of a configuration entry.
pub enum ConfigValue {
    /// A string value.
    Text(Vec<u8>),
    /// A boolean value.
    Flag(bool),
}

/// One configuration key and the value to store under it.
pub struct ConfigEntry {
    pub key: Vec<u8>,
    pub value: ConfigValue,
}

/// The failure raised when no main branch name can be resolved.
#[derive(Debug)]
pub enum InitError {
    /// The user was prompted and entered nothing.
    NoMainBranchProvided,
}

/// How the main branch name is resolved: an explicitly provided name
/// wins; else a detected name; else the prompted entry, trimmed, which
/// must be nonempty.
pub open spec fn resolved_main_branch(
    provided: Option<Seq<u8>>,
    detected: Option<Seq<u8>>,
    prompted: Option<Seq<u8>>,
) -> Option<Seq<u8>> {
    match provided {
        Some(p) => Some(p),
        None => match detected {
            Some(d) => Some(d),
            None => match prompted {
                Some(input) => if trimmed(input).len() > 0 {
                    Some(trimmed(input))
                } else {
                    None
                },
                None => None,
            },
        },
    }
}

/// The configuration entries of an install: the resolved main branch
/// name, the detached-head advice turned off, and the decoration
/// exclusion for the tool's own references. Fails exactly when no main
/// branch name can be resolved.
pub fn set_configs(
    main_branch_name: &Option<Vec<u8>>,
    detected_branch_name: &Option<Vec<u8>>,
    prompted_input: &Option<Vec<u8>>,
) -> (r: Result<Vec<ConfigEntry>, InitError>)
    ensures
        r is Ok <==> resolved_main_branch(
            opt_view(*main_branch_name),
            opt_view(*detected_branch_name),
            opt_view(*prompted_input),
        ) is Some,
        r matches Ok(entries) ==> {
            &&& entries@.len() == 3
            &&& entries@[0].key@ == "branchless.core.mainBranch".spec_bytes()
            &&& entries@[0].value matches ConfigValue::Text(t) && t@ == resolved_main_branch(
                opt_view(*main_branch_name),
                opt_view(*detected_branch_name),
                opt_view(*prompted_input),
            ).unwrap()
            &&& entries@[1].key@ == "advice.detachedHead".spec_bytes()
            &&& entries@[1].value matches ConfigValue::Flag(fl) && fl == false
            &&& entries@[2].key@ == "log.excludeDecoration".spec_bytes()
            &&& entries@[2].value matches ConfigValue::Text(t) && t@ == "refs/branchless/*".spec_bytes()
        },
{
    let name: Vec<u8> = if let Some(p) = main_branch_name {
        let out = subvec(p, 0, p.len());
        proof {
            assert(out@ =~= p@);
        }
        out
    } else if let Some(d) = detected_branch_name {
        let out = subvec(d, 0, d.len());
        proof {
            assert(out@ =~= d@);
        }
        out
    } else if let Some(input) = prompted_input {
        let t = trim_bytes(input);
        if t.len() == 0 {
            return Err(InitError::NoMainBranchProvided);
        }
        t
    } else {
        return Err(InitError::NoMainBranchProvided);
    };
    let mut entries: Vec<ConfigEntry> = Vec::new();
    entries.push(
        ConfigEntry {
            key: ("branchless.core.mainBranch").as_bytes_vec(),
            value: ConfigValue::Text(name),
        },
    );
    entries.push(
        ConfigEntry { key: ("advice.detachedHead").as_bytes_vec(), value: ConfigValue::Flag(false) },
    );
    entries.push(
        ConfigEntry {
            key: ("log.excludeDecoration").as_bytes_vec(),
            value: ConfigValue::Text(("refs/branchless/*").as_bytes_vec()),
        },
    );
    Ok(entries)
}

/// The configuration entries that route help lookups through the
/// generated documentation pages: nothing when the documentation-page
/// build mode is off, else the viewer command over the pages directory,
/// given relative to the repository metadata directory.
pub fn install_man_pages(man_pages_enabled: bool, man_dir_relative: &Vec<u8>) -> (r: Vec<
    (Vec<u8>, Vec<u8>),
>)
    ensures
        !man_pages_enabled ==> r@.len() == 0,
        man_pages_enabled ==> {
            &&& r@.len() == 2
            &&& r@[0].0@ == "man.branchless.cmd".spec_bytes()
            &&& r@[0].1@ == "env MANPATH=.git/".spec_bytes() + man_dir_relative@
                + ": man".spec_bytes()
            &&& r@[1].0@ == "man.viewer".spec_bytes()
            &&& r@[1].1@ == "branchless".spec_bytes()
        },
{
    let mut r: Vec<(Vec<u8>, Vec<u8>)> = Vec::new();
    if man_pages_enabled {
        let mut cmd = ("env MANPATH=.git/").as_bytes_vec();
        cmd.extend_from_slice(man_dir_relative.as_slice());
        let tail = (": man").as_bytes_vec();
        cmd.extend_from_slice(tail.as_slice());
        proof {
            assert(cmd@ =~= "env MANPATH=.git/".spec_bytes() + man_dir_relative@
                + ": man".spec_bytes());
        }
        r.push((("man.branchless.cmd").as_bytes_vec(), cmd));
        r.push((("man.viewer").as_bytes_vec(), ("branchless").as_bytes_vec()));
    }
    r
}

/// Whether a configured include path is tool-owned: it begins with the
/// isolated configuration directory name. Uninstall removes exactly the
/// include entries this accepts.
pub fn is_branchless_include_path(path: &Vec<u8>) -> (r: bool)
    ensures
        r == "branchless/".spec_bytes().is_prefix_of(path@),
{
    let prefix = ("branchless/").as_bytes_vec();
    if path.len() < prefix.len() {
        return false;
    }
    let head = subvec(path, 0, prefix.len());
    bytes_eq(&head, &prefix)
}

} // verus!
