use disk_space_optimizer::dispatch::ActionError;
use disk_space_optimizer::dispatch::Commands;
use disk_space_optimizer::dispatch::clean_package_cache_invocation;
use disk_space_optimizer::dispatch::clean_up_log_files_invocation;
use disk_space_optimizer::dispatch::confirm_removal;
use disk_space_optimizer::dispatch::listing_lines;
use disk_space_optimizer::dispatch::package_names_from_listing;
use disk_space_optimizer::dispatch::remove_old_kernels_invocation;
use disk_space_optimizer::dispatch::remove_package_invocation;
use disk_space_optimizer::dispatch::remove_packages_choice;
use disk_space_optimizer::dispatch::uninstall_unused_apps_invocation;

#[test]
fn key_zero_and_unknown_keys_map_to_no_action() {
    assert!(matches!(Commands::from_selection(0), None));
    assert!(matches!(Commands::from_selection(99), None));
    assert!(matches!(Commands::from_selection(6), None));
}

#[test]
fn keys_one_to_five_map_to_the_five_actions_each_exactly_once() {
    match Commands::from_selection(1) {
        Some(Commands::RemovePackage { package_name }) => assert_eq!(package_name, ""),
        other => panic!("key 1 mapped to {:?}", other),
    }
    assert!(matches!(Commands::from_selection(2), Some(Commands::CleanPackageCache)));
    assert!(matches!(Commands::from_selection(3), Some(Commands::UninstallUnusedApps)));
    assert!(matches!(Commands::from_selection(4), Some(Commands::RemoveOldKernels)));
    assert!(matches!(Commands::from_selection(5), Some(Commands::CleanUpLogFiles)));
}

#[test]
fn clean_package_cache_is_always_one_clean_all_invocation() {
    let first = clean_package_cache_invocation();
    assert_eq!(first.program, "dnf");
    assert_eq!(first.args, vec!["clean".to_string(), "all".to_string()]);

    // An earlier action's failure leaves no trace: the invocation is
    // built from nothing and comes out the same again.
    let kernels = vec!["kernel-core-6.1".to_string()];
    let sentinel_only = vec![1usize];
    assert!(remove_old_kernels_invocation(&kernels, &sentinel_only).is_err());
    let second = clean_package_cache_invocation();
    assert_eq!(second.program, "dnf");
    assert_eq!(second.args, vec!["clean".to_string(), "all".to_string()]);
}

#[test]
fn uninstall_unused_apps_is_one_autoremove_invocation() {
    let inv = uninstall_unused_apps_invocation();
    assert_eq!(inv.program, "dnf");
    assert_eq!(inv.args, vec!["autoremove".to_string()]);
}

#[test]
fn remove_package_trims_the_name_and_keeps_it_one_argument() {
    let inv = remove_package_invocation(" vim filetypes \n");
    assert_eq!(inv.program, "dnf");
    assert_eq!(inv.args, vec!["remove".to_string(), "vim filetypes".to_string()]);
}

#[test]
fn unparseable_vacuum_input_behaves_like_the_default_seven() {
    let from_garbage = clean_up_log_files_invocation("abc");
    let from_seven = clean_up_log_files_invocation("7");
    assert_eq!(from_garbage.program, "journalctl");
    assert_eq!(from_garbage.args, vec!["--vacuum-time=7d".to_string()]);
    assert_eq!(from_seven.args, from_garbage.args);
}

#[test]
fn vacuum_input_edge_cases() {
    assert_eq!(clean_up_log_files_invocation(" 30 \n").args, vec!["--vacuum-time=30d".to_string()]);
    assert_eq!(clean_up_log_files_invocation("").args, vec!["--vacuum-time=7d".to_string()]);
    assert_eq!(clean_up_log_files_invocation("-3").args, vec!["--vacuum-time=7d".to_string()]);
    assert_eq!(clean_up_log_files_invocation("1e2").args, vec!["--vacuum-time=7d".to_string()]);
    // One past the largest representable value falls back; the largest
    // itself is taken as given.
    assert_eq!(clean_up_log_files_invocation("4294967296").args, vec!["--vacuum-time=7d".to_string()]);
    assert_eq!(
        clean_up_log_files_invocation("4294967295").args,
        vec!["--vacuum-time=4294967295d".to_string()]
    );
    assert_eq!(clean_up_log_files_invocation("0").args, vec!["--vacuum-time=0d".to_string()]);
    assert_eq!(clean_up_log_files_invocation("+12").args, vec!["--vacuum-time=12d".to_string()]);
}

#[test]
fn sentinel_only_kernel_selection_yields_no_selection_and_no_invocation() {
    let kernels = vec!["kernel-core-6.1".to_string(), "kernel-core-6.2".to_string()];
    // The sentinel stands right after the candidates, at index 2.
    let sentinel_only = vec![2usize];
    match remove_old_kernels_invocation(&kernels, &sentinel_only) {
        Err(e) => assert_eq!(e, ActionError::NoSelection),
        Ok(inv) => panic!("expected no invocation, got {:?} {:?}", inv.program, inv.args),
    }
    let empty: Vec<usize> = Vec::new();
    assert_eq!(remove_old_kernels_invocation(&kernels, &empty).unwrap_err(), ActionError::NoSelection);
}

#[test]
fn chosen_kernels_become_discrete_removal_arguments() {
    let kernels = vec![
        "kernel-core-6.1".to_string(),
        "kernel-core-6.2".to_string(),
        "kernel-core-6.3".to_string(),
    ];
    let chosen = vec![0usize, 2usize];
    let inv = remove_old_kernels_invocation(&kernels, &chosen).unwrap();
    assert_eq!(inv.program, "dnf");
    assert_eq!(
        inv.args,
        vec!["remove".to_string(), "kernel-core-6.1".to_string(), "kernel-core-6.3".to_string()]
    );
}

#[test]
fn package_choice_fails_on_empty_or_sentinel_and_returns_names_otherwise() {
    let packages = vec!["alpha".to_string(), "beta".to_string()];
    let empty: Vec<usize> = Vec::new();
    assert_eq!(remove_packages_choice(&packages, &empty).unwrap_err(), ActionError::NoSelection);
    let with_sentinel = vec![0usize, 2usize];
    assert_eq!(
        remove_packages_choice(&packages, &with_sentinel).unwrap_err(),
        ActionError::NoSelection
    );
    let both = vec![0usize, 1usize];
    assert_eq!(
        remove_packages_choice(&packages, &both).unwrap(),
        vec!["alpha".to_string(), "beta".to_string()]
    );
}

#[test]
fn confirmation_accepts_y_and_yes_in_any_case_and_declines_the_rest() {
    assert!(confirm_removal("y").is_ok());
    assert!(confirm_removal("Y").is_ok());
    assert!(confirm_removal("yes").is_ok());
    assert!(confirm_removal("YES").is_ok());
    assert!(confirm_removal("Yes").is_ok());
    assert!(confirm_removal(" y \n").is_ok());
    assert_eq!(confirm_removal("n").unwrap_err(), ActionError::Aborted);
    assert_eq!(confirm_removal("").unwrap_err(), ActionError::Aborted);
    assert_eq!(confirm_removal("q").unwrap_err(), ActionError::Aborted);
    assert_eq!(confirm_removal("yess").unwrap_err(), ActionError::Aborted);
    assert_eq!(confirm_removal("no").unwrap_err(), ActionError::Aborted);
}

#[test]
fn listing_parsing_takes_the_first_field_of_every_line() {
    let output = "Installed Packages\nvim.x86_64  2:9.0  updates\nbash.x86_64 5.2 fedora\n";
    let names = package_names_from_listing(output);
    assert_eq!(
        names,
        vec!["Installed".to_string(), "vim.x86_64".to_string(), "bash.x86_64".to_string()]
    );
}

#[test]
fn listing_lines_splits_the_trimmed_output() {
    let lines = listing_lines("kernel-core-6.1\nkernel-core-6.2\n");
    assert_eq!(lines, vec!["kernel-core-6.1".to_string(), "kernel-core-6.2".to_string()]);
    let with_blank = listing_lines("a\n\nb");
    assert_eq!(with_blank, vec!["a".to_string(), "".to_string(), "b".to_string()]);
}
