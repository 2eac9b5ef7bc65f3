//! The action dispatcher: the fixed mapping from a menu key to an
//! action, and, for each action, the construction of the external
//! command it issues and the decisions its workflow takes on the values
//! the prompts hand back. Everything here is pure; the shell around the
//! library performs the prompts and spawns the processes.

use vstd::prelude::*;

use crate::runner::Invocation;
use crate::text::trimmed;
use crate::text::trim;
use crate::text::parses_as_u32;
use crate::text::unsigned_digits;
use crate::text::digits_val;
use crate::text::dec_rep;
use crate::text::parse_u32;
use crate::text::u32_to_string;
use crate::text::split_lines;
use crate::text::first_field;
use crate::text::lines_of;
use crate::text::first_token;

verus! {

/// The five maintenance actions a menu selection can dispatch to.
#[derive(Debug)]
pub enum Commands {
    /// Removes a package; an empty name means the packages to remove are
    /// discovered interactively.
    RemovePackage { package_name: String },
    /// Cleans the package manager's cache.
    CleanPackageCache,
    /// Uninstalls packages nothing depends on any more.
    UninstallUnusedApps,
    /// Removes kernel packages chosen from the installed ones.
    RemoveOldKernels,
    /// Vacuums rotated logs older than a retention period read from the
    /// user.
    CleanUpLogFiles,
}

/// Why an action's workflow stopped before issuing its command.
#[derive(Debug, Clone, Copy, PartialEq, Eq, Structural)]
pub enum ActionError {
    /// The user confirmed an empty choice, or only the sentinel entry.
    NoSelection,
    /// The user declined the confirmation prompt.
    Aborted,
}

impl Commands {
    /// The fixed key-to-action table: keys one to five name the five
    /// actions in menu order; key zero and every other key name no
    /// action. Key one yields package removal with an empty name, so
    /// that the packages are discovered interactively.
    pub fn from_selection(selection: usize) -> (r: Option<Commands>)
        ensures
            selection == 1 ==> (r matches Some(Commands::RemovePackage { package_name })
                && package_name@.len() == 0),
            selection == 2 ==> r matches Some(Commands::CleanPackageCache),
            selection == 3 ==> r matches Some(Commands::UninstallUnusedApps),
            selection == 4 ==> r matches Some(Commands::RemoveOldKernels),
            selection == 5 ==> r matches Some(Commands::CleanUpLogFiles),
            (selection == 0 || selection > 5) ==> r is None,
    {
        match selection {
            1 => Some(Commands::RemovePackage { package_name: String::new() }),
            2 => Some(Commands::CleanPackageCache),
            3 => Some(Commands::UninstallUnusedApps),
            4 => Some(Commands::RemoveOldKernels),
            5 => Some(Commands::CleanUpLogFiles),
            _ => None,
        }
    }
}

/// The cache-cleaning command: always exactly one invocation of the
/// package manager with the two arguments `clean` and `all`, whatever
/// happened before.
pub fn clean_package_cache_invocation() -> (r: Invocation)
    ensures
        r@.0 == "dnf"@,
        r@.1 =~~= seq!["clean"@, "all"@],
{
    let mut args: Vec<String> = Vec::new();
    args.push(String::from_str("clean"));
    args.push(String::from_str("all"));
    Invocation { program: String::from_str("dnf"), args }
}

/// The unused-package removal command: one invocation of the package
/// manager's autoremove operation.
pub fn uninstall_unused_apps_invocation() -> (r: Invocation)
    ensures
        r@.0 == "dnf"@,
        r@.1 =~~= seq!["autoremove"@],
{
    let mut args: Vec<String> = Vec::new();
    args.push(String::from_str("autoremove"));
    Invocation { program: String::from_str("dnf"), args }
}

/// The removal command for one package: the package manager's remove
/// operation on the trimmed name, kept as a discrete argument.
pub fn remove_package_invocation(package_name: &str) -> (r: Invocation)
    ensures
        r@.0 == "dnf"@,
        r@.1 =~~= seq!["remove"@, trimmed(package_name@)],
{
    let mut args: Vec<String> = Vec::new();
    args.push(String::from_str("remove"));
    args.push(trim(package_name));
    Invocation { program: String::from_str("dnf"), args }
}

/// The retention period used when the user's input does not parse.
pub const DEFAULT_VACUUM_DAYS: u32 = 7;

/// The retention period a line of input denotes: its trimmed text read
/// as an unsigned decimal number, or the default when that fails.
pub open spec fn days_of_input(s: Seq<char>) -> nat {
    let digits = unsigned_digits(trimmed(s));
    if parses_as_u32(digits) {
        digits_val(digits)
    } else {
        DEFAULT_VACUUM_DAYS as nat
    }
}

/// Parses the retention period from a line of input; malformed input
/// falls back to the default rather than failing.
pub fn vacuum_days(input: &str) -> (r: u32)
    ensures
        r as nat == days_of_input(input@),
{
    let t = trim(input);
    match parse_u32(t.as_str()) {
        Some(v) => v,
        None => DEFAULT_VACUUM_DAYS,
    }
}

/// The retention flag handed to the log tool for a number of days.
pub open spec fn vacuum_flag_spec(days: nat) -> Seq<char> {
    "--vacuum-time="@ + dec_rep(days) + "d"@
}

/// The log-vacuum command for a line of user input: one invocation of
/// the log tool with the single retention flag, the days taken from the
/// input or defaulted.
pub fn clean_up_log_files_invocation(input: &str) -> (r: Invocation)
    ensures
        r@.0 == "journalctl"@,
        r@.1 =~~= seq![vacuum_flag_spec(days_of_input(input@))],
{
    let days = vacuum_days(input);
    let mut flag = String::from_str("--vacuum-time=");
    let digits = u32_to_string(days);
    flag.append(digits.as_str());
    flag.append("d");
    proof {
        assert(flag@ =~= vacuum_flag_spec(days_of_input(input@)));
    }
    let mut args: Vec<String> = Vec::new();
    args.push(flag);
    Invocation { program: String::from_str("journalctl"), args }
}

/// Whether `s`, trimmed, is an affirmative answer: `y` or `yes` in any
/// letter case. Anything else declines.
pub open spec fn is_yes(s: Seq<char>) -> bool {
    let t = trimmed(s);
    (t.len() == 1 && (t[0] == 'y' || t[0] == 'Y')) || (t.len() == 3 && (t[0] == 'y' || t[0] == 'Y')
        && (t[1] == 'e' || t[1] == 'E') && (t[2] == 's' || t[2] == 'S'))
}

/// Judges the answer to the removal confirmation prompt: an affirmative
/// answer lets the action proceed; any other answer aborts it, without
/// anything having been invoked.
pub fn confirm_removal(resp: &str) -> (r: Result<(), ActionError>)
    ensures
        r is Ok <==> is_yes(resp@),
        !is_yes(resp@) ==> (r matches Err(e) && e == ActionError::Aborted),
{
    let t = trim(resp);
    let s = t.as_str();
    let n = s.unicode_len();
    if n == 1 {
        let c = s.get_char(0);
        if c == 'y' || c == 'Y' {
            return Ok(());
        }
    } else if n == 3 {
        let c0 = s.get_char(0);
        let c1 = s.get_char(1);
        let c2 = s.get_char(2);
        if (c0 == 'y' || c0 == 'Y') && (c1 == 'e' || c1 == 'E') && (c2 == 's' || c2 == 'S') {
            return Ok(());
        }
    }
    Err(ActionError::Aborted)
}

/// Whether a secondary selection names the sentinel entry, which stands
/// right after the candidates.
pub open spec fn sentinel_chosen(candidates: Seq<Seq<char>>, selected: Seq<usize>) -> bool {
    exists|j: int| 0 <= j < selected.len() && selected[j] == candidates.len()
}

/// The candidates a secondary selection names, in the selection's order.
pub open spec fn chosen_candidates(candidates: Seq<Seq<char>>, selected: Seq<usize>) -> Seq<
    Seq<char>,
> {
    Seq::new(selected.len(), |j: int| candidates[selected[j] as int])
}

/// Resolves a secondary selection over a candidate list whose menu ends
/// in one sentinel entry. An empty selection and a selection that names
/// the sentinel both fail with [`ActionError::NoSelection`]; otherwise
/// the named candidates come back in the selection's order.
pub fn secondary_choice(candidates: &Vec<String>, selected: &Vec<usize>) -> (r: Result<
    Vec<String>,
    ActionError,
>)
    requires
        forall|j: int| 0 <= j < selected@.len() ==> selected@[j] <= candidates@.len(),
    ensures
        r is Err <==> (selected@.len() == 0 || sentinel_chosen(candidates.deep_view(), selected@)),
        r matches Err(e) ==> e == ActionError::NoSelection,
        r matches Ok(v) ==> v.deep_view() =~~= chosen_candidates(
            candidates.deep_view(),
            selected@,
        ),
{
    let n = candidates.len();
    let m = selected.len();
    if m == 0 {
        return Err(ActionError::NoSelection);
    }
    let mut j: usize = 0;
    while j < m
        invariant
            0 <= j <= m,
            m == selected@.len(),
            n == candidates@.len(),
            forall|k: int| 0 <= k < j ==> selected@[k] != n,
        decreases m - j,
    {
        if selected[j] == n {
            return Err(ActionError::NoSelection);
        }
        j = j + 1;
    }
    let mut out: Vec<String> = Vec::new();
    let mut k: usize = 0;
    while k < m
        invariant
            0 <= k <= m,
            m == selected@.len(),
            n == candidates@.len(),
            candidates.deep_view().len() == n,
            forall|j2: int| 0 <= j2 < m ==> selected@[j2] < n,
            out.deep_view() =~~= chosen_candidates(candidates.deep_view(), selected@.subrange(
                0,
                k as int,
            )),
        decreases m - k,
    {
        let idx = selected[k];
        let ghost pre = out.deep_view();
        out.push(candidates[idx].clone());
        proof {
            assert(out.deep_view() =~~= pre.push(candidates.deep_view()[idx as int]));
            assert(selected@.subrange(0, k + 1) =~= selected@.subrange(0, k as int).push(
                selected@[k as int],
            ));
            assert(chosen_candidates(candidates.deep_view(), selected@.subrange(0, k + 1))
                =~~= chosen_candidates(candidates.deep_view(), selected@.subrange(0, k as int)).push(
                candidates.deep_view()[idx as int],
            ));
        }
        k = k + 1;
    }
    proof {
        assert(selected@.subrange(0, m as int) =~= selected@);
    }
    Ok(out)
}

/// The kernel-removal command for a secondary selection over the
/// installed kernels. The chosen design executes the removal directly,
/// with every kernel name kept as its own argument, rather than staging
/// a joined command line elsewhere: joining and re-splitting could break
/// an identifier. An empty or sentinel-only selection fails with
/// [`ActionError::NoSelection`] and yields no invocation.
pub fn remove_old_kernels_invocation(kernels: &Vec<String>, selected: &Vec<usize>) -> (r: Result<
    Invocation,
    ActionError,
>)
    requires
        forall|j: int| 0 <= j < selected@.len() ==> selected@[j] <= kernels@.len(),
    ensures
        r is Err <==> (selected@.len() == 0 || sentinel_chosen(kernels.deep_view(), selected@)),
        r matches Err(e) ==> e == ActionError::NoSelection,
        r matches Ok(inv) ==> inv@.0 == "dnf"@ && inv@.1 =~~= seq!["remove"@] + chosen_candidates(
            kernels.deep_view(),
            selected@,
        ),
{
    let chosen = match secondary_choice(kernels, selected) {
        Ok(v) => v,
        Err(e) => {
            return Err(e);
        },
    };
    let mut args: Vec<String> = Vec::new();
    args.push(String::from_str("remove"));
    let m = chosen.len();
    let mut i: usize = 0;
    while i < m
        invariant
            0 <= i <= m,
            m == chosen@.len(),
            chosen.deep_view().len() == m,
            args.deep_view() =~~= seq!["remove"@] + chosen.deep_view().subrange(0, i as int),
        decreases m - i,
    {
        let ghost pre = args.deep_view();
        args.push(chosen[i].clone());
        proof {
            assert(args.deep_view() =~~= pre.push(chosen.deep_view()[i as int]));
            assert(chosen.deep_view().subrange(0, i + 1) =~= chosen.deep_view().subrange(
                0,
                i as int,
            ).push(chosen.deep_view()[i as int]));
            assert(seq!["remove"@] + chosen.deep_view().subrange(0, i + 1) =~~= (seq!["remove"@]
                + chosen.deep_view().subrange(0, i as int)).push(chosen.deep_view()[i as int]));
        }
        i = i + 1;
    }
    proof {
        assert(chosen.deep_view().subrange(0, m as int) =~= chosen.deep_view());
    }
    Ok(Invocation { program: String::from_str("dnf"), args })
}

/// Resolves the secondary package selection for interactive removal:
/// the chosen package names, or [`ActionError::NoSelection`] when the
/// choice was empty or named the sentinel. Confirmation and the one
/// removal invocation per name follow separately.
pub fn remove_packages_choice(packages: &Vec<String>, selected: &Vec<usize>) -> (r: Result<
    Vec<String>,
    ActionError,
>)
    requires
        forall|j: int| 0 <= j < selected@.len() ==> selected@[j] <= packages@.len(),
    ensures
        r is Err <==> (selected@.len() == 0 || sentinel_chosen(packages.deep_view(), selected@)),
        r matches Err(e) ==> e == ActionError::NoSelection,
        r matches Ok(v) ==> v.deep_view() =~~= chosen_candidates(packages.deep_view(), selected@),
{
    secondary_choice(packages, selected)
}

/// The candidate lines of a listing: the trimmed output split at
/// newlines, one candidate per line.
pub fn listing_lines(output: &str) -> (r: Vec<String>)
    ensures
        r.deep_view() =~~= split_lines(trimmed(output@)),
{
    let t = trim(output);
    lines_of(t.as_str())
}

/// The package names in a listing: the first whitespace-separated field
/// of every line of the trimmed output, in order.
pub fn package_names_from_listing(output: &str) -> (r: Vec<String>)
    ensures
        r.deep_view().len() == split_lines(trimmed(output@)).len(),
        forall|i: int| 0 <= i < r.deep_view().len() ==> r.deep_view()[i] == first_field(
            split_lines(trimmed(output@))[i],
        ),
{
    let t = trim(output);
    let lines = lines_of(t.as_str());
    let n = lines.len();
    let mut out: Vec<String> = Vec::new();
    let mut i: usize = 0;
    while i < n
        invariant
            0 <= i <= n,
            n == lines@.len(),
            lines.deep_view() =~~= split_lines(trimmed(output@)),
            out.deep_view().len() == i,
            forall|j: int| 0 <= j < i ==> out.deep_view()[j] == first_field(lines.deep_view()[j]),
        decreases n - i,
    {
        let name = first_token(lines[i].as_str());
        let ghost nv = name@;
        let ghost pre = out.deep_view();
        out.push(name);
        proof {
            assert(out.deep_view() =~~= pre.push(nv));
        }
        i = i + 1;
    }
    out
}

} // verus!
