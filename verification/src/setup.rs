//! Install and uninstall orchestration, as planning: from the values the
//! caller has read (existing file contents, repository facts, the
//! prompted branch name) compute every file content and configuration
//! entry that the install or uninstall writes. The caller performs the
//! writes in table order and stops at the first failure; every step is
//! individually idempotent, so re-running converges.

use vstd::prelude::*;
use vstd::string::StringSliceAdditionalSpecFns;

use crate::bytes::opt_view;
use crate::hooks::hook_file_contents;
use crate::hooks::hook_table;
use crate::hooks::install_hooks;
use crate::hooks::resolved_hook_path;
use crate::hooks::uninstall_hooks;
use crate::hooks::uninstalled_hook_body;
use crate::hooks::HookWrite;
use crate::section::include_body;
use crate::section::section_apply_spec;
use crate::section::section_footer;
use crate::section::section_header;
use crate::section::update_config_text;
use crate::settings::alias_command;
use crate::settings::alias_table;
use crate::settings::install_aliases;
use crate::settings::install_man_pages;
use crate::settings::resolved_main_branch;
use crate::settings::set_configs;
use crate::settings::ConfigEntry;
use crate::settings::ConfigValue;
use crate::settings::InitError;

verus! {

/// Everything an install writes.
pub struct InitPlan {
    /// The new text of the repository's primary configuration file, with
    /// the branchless section installed or refreshed.
    pub new_primary_config: Vec<u8>,
    /// The hook files to write, one per hook table entry, in order.
    pub hook_writes: Vec<HookWrite>,
    /// The core configuration entries to set.
    pub config_entries: Vec<ConfigEntry>,
    /// The alias entries to set.
    pub alias_entries: Vec<(Vec<u8>, Vec<u8>)>,
    /// The documentation-page entries to set, empty when that build mode
    /// is off.
    pub man_page_entries: Vec<(Vec<u8>, Vec<u8>)>,
}

/// Plan a whole install. Fails exactly when no main branch name can be
/// resolved from the provided name, the detected name and the prompted
/// entry; nothing is planned in that case, matching an install that
/// aborts before writing anything.
pub fn init(
    old_primary_config: &Vec<u8>,
    config_path_relative: &Vec<u8>,
    repo_dir: &Vec<u8>,
    hooks_dir: &Vec<u8>,
    multi_hooks_dir_exists: bool,
    existing_hooks: &Vec<Option<Vec<u8>>>,
    main_branch_name: &Option<Vec<u8>>,
    detected_branch_name: &Option<Vec<u8>>,
    prompted_input: &Option<Vec<u8>>,
    use_wrapped_alias: bool,
    man_pages_enabled: bool,
    man_dir_relative: &Vec<u8>,
) -> (r: Result<InitPlan, InitError>)
    requires
        existing_hooks@.len() == hook_table().len(),
    ensures
        r is Ok <==> resolved_main_branch(
            opt_view(*main_branch_name),
            opt_view(*detected_branch_name),
            opt_view(*prompted_input),
        ) is Some,
        r matches Ok(plan) ==> {
            &&& plan.new_primary_config@ == section_apply_spec(
                old_primary_config@,
                section_header(),
                section_footer(),
                include_body(config_path_relative@),
            )
            &&& plan.hook_writes@.len() == hook_table().len()
            &&& forall|i: int|
                0 <= i < plan.hook_writes@.len() ==> (#[trigger] plan.hook_writes@[i]).path@
                    == resolved_hook_path(
                    repo_dir@,
                    hooks_dir@,
                    multi_hooks_dir_exists,
                    hook_table()[i].0,
                ) && plan.hook_writes@[i].contents@ == hook_file_contents(
                    multi_hooks_dir_exists,
                    opt_view(existing_hooks@[i]),
                    hook_table()[i].1,
                )
            &&& plan.config_entries@.len() == 3
            &&& plan.config_entries@[0].key@ == "branchless.core.mainBranch".spec_bytes()
            &&& plan.config_entries@[0].value matches ConfigValue::Text(t) && t@
                == resolved_main_branch(
                opt_view(*main_branch_name),
                opt_view(*detected_branch_name),
                opt_view(*prompted_input),
            ).unwrap()
            &&& plan.config_entries@[1].key@ == "advice.detachedHead".spec_bytes()
            &&& plan.config_entries@[1].value matches ConfigValue::Flag(fl) && fl == false
            &&& plan.config_entries@[2].key@ == "log.excludeDecoration".spec_bytes()
            &&& plan.config_entries@[2].value matches ConfigValue::Text(t) && t@
                == "refs/branchless/*".spec_bytes()
            &&& plan.alias_entries@.len() == alias_table().len()
            &&& forall|i: int|
                0 <= i < plan.alias_entries@.len() ==> (#[trigger] plan.alias_entries@[i]).0@
                    == "alias.".spec_bytes() + alias_table()[i].0 && plan.alias_entries@[i].1@
                    == alias_command(alias_table()[i].1, use_wrapped_alias)
            &&& !man_pages_enabled ==> plan.man_page_entries@.len() == 0
            &&& man_pages_enabled ==> {
                &&& plan.man_page_entries@.len() == 2
                &&& plan.man_page_entries@[0].0@ == "man.branchless.cmd".spec_bytes()
                &&& plan.man_page_entries@[0].1@ == "env MANPATH=.git/".spec_bytes()
                    + man_dir_relative@ + ": man".spec_bytes()
                &&& plan.man_page_entries@[1].0@ == "man.viewer".spec_bytes()
                &&& plan.man_page_entries@[1].1@ == "branchless".spec_bytes()
            }
        },
{
    let config_entries = match set_configs(
        main_branch_name,
        detected_branch_name,
        prompted_input,
    ) {
        Ok(entries) => entries,
        Err(e) => {
            return Err(e);
        },
    };
    let new_primary_config = update_config_text(old_primary_config, config_path_relative);
    let hook_writes = install_hooks(repo_dir, hooks_dir, multi_hooks_dir_exists, existing_hooks);
    let alias_entries = install_aliases(use_wrapped_alias);
    let man_page_entries = install_man_pages(man_pages_enabled, man_dir_relative);
    Ok(
        InitPlan {
            new_primary_config,
            hook_writes,
            config_entries,
            alias_entries,
            man_page_entries,
        },
    )
}

/// Everything an uninstall writes. The isolated configuration file is
/// deleted by the caller, and the include entries removed from the
/// primary configuration are exactly the tool-owned ones, as
/// `is_branchless_include_path` decides; the hook files are overwritten
/// with the inert placeholder, never deleted.
pub struct UninstallPlan {
    /// The hook files to overwrite, one per hook table entry, in order.
    pub hook_writes: Vec<HookWrite>,
}

/// Plan a whole uninstall.
pub fn uninstall(
    repo_dir: &Vec<u8>,
    hooks_dir: &Vec<u8>,
    multi_hooks_dir_exists: bool,
    existing_hooks: &Vec<Option<Vec<u8>>>,
) -> (r: UninstallPlan)
    requires
        existing_hooks@.len() == hook_table().len(),
    ensures
        r.hook_writes@.len() == hook_table().len(),
        forall|i: int|
            0 <= i < r.hook_writes@.len() ==> (#[trigger] r.hook_writes@[i]).path@
                == resolved_hook_path(
                repo_dir@,
                hooks_dir@,
                multi_hooks_dir_exists,
                hook_table()[i].0,
            ) && r.hook_writes@[i].contents@ == hook_file_contents(
                multi_hooks_dir_exists,
                opt_view(existing_hooks@[i]),
                uninstalled_hook_body(),
            ),
{
    let hook_writes = uninstall_hooks(repo_dir, hooks_dir, multi_hooks_dir_exists, existing_hooks);
    UninstallPlan { hook_writes }
}

} // verus!
