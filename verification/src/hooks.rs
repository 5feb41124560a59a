//! Hook installation: resolving where a hook script lives, rendering the
//! new contents of a hook file through the block patcher, and the fixed
//! table of hook types and their script bodies. Reading and writing the
//! files, and the repository queries behind the resolved paths, are left
//! to the caller; everything here is a pure computation on the values the
//! caller read.

use vstd::prelude::*;
use vstd::string::StrSliceExecFns;
use vstd::string::StringSliceAdditionalSpecFns;

use crate::block::apply_block;
use crate::block::emit_block;
use crate::block::end_marker;
use crate::block::end_marker_bytes;
use crate::block::render_block;
use crate::block::shebang;
use crate::block::shebang_bytes;
use crate::block::start_marker;
use crate::block::start_marker_bytes;
use crate::block::update_between_lines;
use crate::bytes::opt_view;
use crate::lines::NL;

verus! {

/// How a hook script is laid out on disk.
pub enum Hook {
    /// A single flat executable, patched in place around user content.
    RegularHook { path: Vec<u8> },
    /// A fragment in a per-hook-type directory, fully overwritten; an
    /// external mechanism runs every fragment in that directory.
    MultiHook { path: Vec<u8> },
}

impl Hook {
    /// The resolved file path.
    pub open spec fn path_view(self) -> Seq<u8> {
        match self {
            Hook::RegularHook { path } => path@,
            Hook::MultiHook { path } => path@,
        }
    }

    /// Whether this is a fragment in a multi-hook directory.
    pub open spec fn is_multi(self) -> bool {
        self is MultiHook
    }
}

/// Where a hook of the given type lives, depending on whether the
/// repository's metadata directory holds a multi-hook directory.
pub open spec fn resolved_hook_path(
    repo_dir: Seq<u8>,
    hooks_dir: Seq<u8>,
    multi: bool,
    hook_type: Seq<u8>,
) -> Seq<u8> {
    if multi {
        repo_dir + "/hooks_multi/".spec_bytes() + hook_type + ".d/00_local_branchless".spec_bytes()
    } else {
        hooks_dir + "/".spec_bytes() + hook_type
    }
}

/// Decide whether the hook goes to the multi-hook fragment directory or to
/// the configured hooks directory. The existence of the multi-hook
/// directory is re-checked by the caller on every call; it is passed in as
/// a plain flag.
pub fn determine_hook_path(
    repo_dir: &Vec<u8>,
    hooks_dir: &Vec<u8>,
    multi_hooks_dir_exists: bool,
    hook_type: &Vec<u8>,
) -> (r: Hook)
    ensures
        r.is_multi() == multi_hooks_dir_exists,
        r.path_view() == resolved_hook_path(repo_dir@, hooks_dir@, multi_hooks_dir_exists, hook_type@),
{
    if multi_hooks_dir_exists {
        let mut path = repo_dir.clone();
        let mid = ("/hooks_multi/").as_bytes_vec();
        path.extend_from_slice(mid.as_slice());
        path.extend_from_slice(hook_type.as_slice());
        let tail = (".d/00_local_branchless").as_bytes_vec();
        path.extend_from_slice(tail.as_slice());
        proof {
            assert(path@ =~= resolved_hook_path(repo_dir@, hooks_dir@, true, hook_type@));
        }
        Hook::MultiHook { path }
    } else {
        let mut path = hooks_dir.clone();
        let sep = ("/").as_bytes_vec();
        path.extend_from_slice(sep.as_slice());
        path.extend_from_slice(hook_type.as_slice());
        proof {
            assert(path@ =~= resolved_hook_path(repo_dir@, hooks_dir@, false, hook_type@));
        }
        Hook::RegularHook { path }
    }
}

/// The new contents of a hook file. A fragment is fully overwritten with a
/// directive line and the script. A flat hook is patched: an existing file
/// has its managed region replaced; a missing file becomes the directive
/// line followed by one freshly rendered managed region and nothing else.
pub open spec fn hook_file_contents(
    multi: bool,
    existing: Option<Seq<u8>>,
    hook_contents: Seq<u8>,
) -> Seq<u8> {
    if multi {
        shebang() + seq![NL] + hook_contents
    } else {
        match existing {
            Some(lines) => apply_block(lines, start_marker(), end_marker(), hook_contents),
            None => shebang() + seq![NL] + render_block(start_marker(), end_marker(), hook_contents),
        }
    }
}

/// Render the new contents of the given hook file. `existing` is the
/// current contents of the file, or nothing when the file does not exist;
/// a missing file is not an error but a fresh creation.
pub fn update_hook_contents(hook: &Hook, existing: &Option<Vec<u8>>, hook_contents: &Vec<u8>) -> (r:
    Vec<u8>)
    ensures
        r@ == hook_file_contents(hook.is_multi(), opt_view(*existing), hook_contents@),
{
    match hook {
        Hook::MultiHook { path: _ } => {
            let mut r = shebang_bytes();
            r.push(NL);
            r.extend_from_slice(hook_contents.as_slice());
            proof {
                assert(r@ =~= shebang() + seq![NL] + hook_contents@);
            }
            r
        },
        Hook::RegularHook { path: _ } => {
            match existing {
                Some(lines) => update_between_lines(lines, hook_contents),
                None => {
                    let mut r = shebang_bytes();
                    r.push(NL);
                    let start = start_marker_bytes();
                    let end = end_marker_bytes();
                    emit_block(&mut r, &start, &end, hook_contents);
                    proof {
                        assert(r@ =~= shebang() + seq![NL] + render_block(
                            start_marker(),
                            end_marker(),
                            hook_contents@,
                        ));
                    }
                    r
                },
            }
        },
    }
}

/// One file write the caller still has to perform.
pub struct HookWrite {
    /// Where the hook file lives.
    pub path: Vec<u8>,
    /// The full new contents of the file.
    pub contents: Vec<u8>,
}

/// Resolve the path of one hook and render its new contents.
pub fn install_hook(
    repo_dir: &Vec<u8>,
    hooks_dir: &Vec<u8>,
    multi_hooks_dir_exists: bool,
    hook_type: &Vec<u8>,
    existing: &Option<Vec<u8>>,
    hook_script: &Vec<u8>,
) -> (r: HookWrite)
    ensures
        r.path@ == resolved_hook_path(repo_dir@, hooks_dir@, multi_hooks_dir_exists, hook_type@),
        r.contents@ == hook_file_contents(
            multi_hooks_dir_exists,
            opt_view(*existing),
            hook_script@,
        ),
{
    let hook = determine_hook_path(repo_dir, hooks_dir, multi_hooks_dir_exists, hook_type);
    let contents = update_hook_contents(&hook, existing, hook_script);
    let path = match hook {
        Hook::RegularHook { path } => path,
        Hook::MultiHook { path } => path,
    };
    HookWrite { path, contents }
}

/// The fixed table of hook types and the script installed for each.
pub open spec fn hook_table() -> Seq<(Seq<u8>, Seq<u8>)> {
    seq![
        ("post-commit".spec_bytes(), "\ngit branchless hook-post-commit \"$@\"\n".spec_bytes()),
        ("post-merge".spec_bytes(), "\ngit branchless hook-post-merge \"$@\"\n".spec_bytes()),
        ("post-rewrite".spec_bytes(), "\ngit branchless hook-post-rewrite \"$@\"\n".spec_bytes()),
        ("post-checkout".spec_bytes(), "\ngit branchless hook-post-checkout \"$@\"\n".spec_bytes()),
        ("pre-auto-gc".spec_bytes(), "\ngit branchless hook-pre-auto-gc \"$@\"\n".spec_bytes()),
        (
            "reference-transaction".spec_bytes(),
            "\n# Avoid canceling the reference transaction in the case that `branchless` fails\n# for whatever reason.\ngit branchless hook-reference-transaction \"$@\" || (\necho 'branchless: Failed to process reference transaction!'\necho 'branchless: Some events (e.g. branch updates) may have been lost.'\necho 'branchless: This is a bug. Please report it.'\n)\n".spec_bytes(),
        ),
    ]
}

/// The hook table as values.
pub fn all_hooks() -> (r: Vec<(Vec<u8>, Vec<u8>)>)
    ensures
        r@.len() == hook_table().len(),
        forall|i: int|
            0 <= i < r@.len() ==> (#[trigger] r@[i]).0@ == hook_table()[i].0 && r@[i].1@
                == hook_table()[i].1,
{
    let mut r: Vec<(Vec<u8>, Vec<u8>)> = Vec::new();
    r.push((("post-commit").as_bytes_vec(), ("\ngit branchless hook-post-commit \"$@\"\n").as_bytes_vec()));
    r.push((("post-merge").as_bytes_vec(), ("\ngit branchless hook-post-merge \"$@\"\n").as_bytes_vec()));
    r.push((("post-rewrite").as_bytes_vec(), ("\ngit branchless hook-post-rewrite \"$@\"\n").as_bytes_vec()));
    r.push((("post-checkout").as_bytes_vec(), ("\ngit branchless hook-post-checkout \"$@\"\n").as_bytes_vec()));
    r.push((("pre-auto-gc").as_bytes_vec(), ("\ngit branchless hook-pre-auto-gc \"$@\"\n").as_bytes_vec()));
    r.push((
        ("reference-transaction").as_bytes_vec(),
        ("\n# Avoid canceling the reference transaction in the case that `branchless` fails\n# for whatever reason.\ngit branchless hook-reference-transaction \"$@\" || (\necho 'branchless: Failed to process reference transaction!'\necho 'branchless: Some events (e.g. branch updates) may have been lost.'\necho 'branchless: This is a bug. Please report it.'\n)\n").as_bytes_vec(),
    ));
    proof {
        assert forall|i: int|
            0 <= i < r@.len() implies (#[trigger] r@[i]).0@ == hook_table()[i].0 && r@[i].1@
            == hook_table()[i].1 by {
            assert(r@[0].0@ == hook_table()[0].0 && r@[0].1@ == hook_table()[0].1);
            assert(r@[1].0@ == hook_table()[1].0 && r@[1].1@ == hook_table()[1].1);
            assert(r@[2].0@ == hook_table()[2].0 && r@[2].1@ == hook_table()[2].1);
            assert(r@[3].0@ == hook_table()[3].0 && r@[3].1@ == hook_table()[3].1);
            assert(r@[4].0@ == hook_table()[4].0 && r@[4].1@ == hook_table()[4].1);
            assert(r@[5].0@ == hook_table()[5].0 && r@[5].1@ == hook_table()[5].1);
        }
    }
    r
}

/// The writes that install every hook of the table. `existing` gives, for
/// each table entry in order, the current contents of that hook file, or
/// nothing where the file does not exist.
pub fn install_hooks(
    repo_dir: &Vec<u8>,
    hooks_dir: &Vec<u8>,
    multi_hooks_dir_exists: bool,
    existing: &Vec<Option<Vec<u8>>>,
) -> (r: Vec<HookWrite>)
    requires
        existing@.len() == hook_table().len(),
    ensures
        r@.len() == hook_table().len(),
        forall|i: int|
            0 <= i < r@.len() ==> (#[trigger] r@[i]).path@ == resolved_hook_path(
                repo_dir@,
                hooks_dir@,
                multi_hooks_dir_exists,
                hook_table()[i].0,
            ) && r@[i].contents@ == hook_file_contents(
                multi_hooks_dir_exists,
                opt_view(existing@[i]),
                hook_table()[i].1,
            ),
{
    let hooks = all_hooks();
    let n: usize = hooks.len();
    let mut r: Vec<HookWrite> = Vec::new();
    let mut i: usize = 0;
    while i < n
        invariant
            n == hook_table().len(),
            n == hooks@.len(),
            existing@.len() == n,
            0 <= i <= n,
            r@.len() == i,
            forall|j: int|
                0 <= j < hooks@.len() ==> (#[trigger] hooks@[j]).0@ == hook_table()[j].0
                    && hooks@[j].1@ == hook_table()[j].1,
            forall|j: int|
                0 <= j < i ==> (#[trigger] r@[j]).path@ == resolved_hook_path(
                    repo_dir@,
                    hooks_dir@,
                    multi_hooks_dir_exists,
                    hook_table()[j].0,
                ) && r@[j].contents@ == hook_file_contents(
                    multi_hooks_dir_exists,
                    opt_view(existing@[j]),
                    hook_table()[j].1,
                ),
        decreases n - i,
    {
        let entry = &hooks[i];
        let w = install_hook(
            repo_dir,
            hooks_dir,
            multi_hooks_dir_exists,
            &entry.0,
            &existing[i],
            &entry.1,
        );
        r.push(w);
        i = i + 1;
    }
    r
}

/// The inert body written into every hook on uninstall: the hook file
/// stays present and executable, but does nothing besides carrying this
/// notice.
pub open spec fn uninstalled_hook_body() -> Seq<u8> {
    "\n# This hook has been uninstalled.\n# Run `git branchless init` to reinstall.\n".spec_bytes()
}

pub fn uninstalled_hook_body_bytes() -> (r: Vec<u8>)
    ensures
        r@ == uninstalled_hook_body(),
{
    ("\n# This hook has been uninstalled.\n# Run `git branchless init` to reinstall.\n").as_bytes_vec()
}

/// The writes that replace every hook's managed region with the inert
/// placeholder body. Files are overwritten, never deleted.
pub fn uninstall_hooks(
    repo_dir: &Vec<u8>,
    hooks_dir: &Vec<u8>,
    multi_hooks_dir_exists: bool,
    existing: &Vec<Option<Vec<u8>>>,
) -> (r: Vec<HookWrite>)
    requires
        existing@.len() == hook_table().len(),
    ensures
        r@.len() == hook_table().len(),
        forall|i: int|
            0 <= i < r@.len() ==> (#[trigger] r@[i]).path@ == resolved_hook_path(
                repo_dir@,
                hooks_dir@,
                multi_hooks_dir_exists,
                hook_table()[i].0,
            ) && r@[i].contents@ == hook_file_contents(
                multi_hooks_dir_exists,
                opt_view(existing@[i]),
                uninstalled_hook_body(),
            ),
{
    let hooks = all_hooks();
    let n: usize = hooks.len();
    let body = uninstalled_hook_body_bytes();
    let mut r: Vec<HookWrite> = Vec::new();
    let mut i: usize = 0;
    while i < n
        invariant
            n == hook_table().len(),
            n == hooks@.len(),
            existing@.len() == n,
            body@ == uninstalled_hook_body(),
            0 <= i <= n,
            r@.len() == i,
            forall|j: int|
                0 <= j < hooks@.len() ==> (#[trigger] hooks@[j]).0@ == hook_table()[j].0
                    && hooks@[j].1@ == hook_table()[j].1,
            forall|j: int|
                0 <= j < i ==> (#[trigger] r@[j]).path@ == resolved_hook_path(
                    repo_dir@,
                    hooks_dir@,
                    multi_hooks_dir_exists,
                    hook_table()[j].0,
                ) && r@[j].contents@ == hook_file_contents(
                    multi_hooks_dir_exists,
                    opt_view(existing@[j]),
                    uninstalled_hook_body(),
                ),
        decreases n - i,
    {
        let entry = &hooks[i];
        let w = install_hook(
            repo_dir,
            hooks_dir,
            multi_hooks_dir_exists,
            &entry.0,
            &existing[i],
            &body,
        );
        r.push(w);
        i = i + 1;
    }
    r
}

/// The permission mode of a generated script: the owner, group and other
/// execute bits are added to the mode read from the file, and no other bit
/// is changed.
pub fn add_execute_bits(mode: u32) -> (r: u32)
    ensures
        r == mode | 0o111u32,
{
    mode | 0o111u32
}

} // verus!
