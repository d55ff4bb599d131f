use apt_cli_wrappers::{
    apt_autoremove, apt_cache, apt_hold, apt_install, apt_install_fix_broken, apt_noninteractive,
    apt_noninteractive_callback, apt_purge, apt_reinstall, apt_remove, apt_unhold, apt_update,
    apt_upgrade, dpkg_configure_all, installed_query, Invocation, OutputMode,
};

fn owned(items: &[&str]) -> Vec<String> {
    items.iter().map(|item| item.to_string()).collect()
}

fn noninteractive() -> Vec<(String, String)> {
    vec![("DEBIAN_FRONTEND".to_string(), "noninteractive".to_string())]
}

/// `apt-get -y --allow-downgrades` followed by `extra`, behind the lock.
fn gated_apt_get(extra: &[&str]) -> Invocation {
    let mut args = owned(&["-y", "--allow-downgrades"]);
    args.extend(owned(extra));
    Invocation {
        program: "apt-get".to_string(),
        env: noninteractive(),
        args,
        output: OutputMode::Inherit,
        lock_attempts: Some(3000),
    }
}

#[test]
fn apt_get_is_told_not_to_ask() {
    assert_eq!(
        apt_noninteractive(&["install", "vim"]),
        Invocation {
            program: "apt-get".to_string(),
            env: noninteractive(),
            args: owned(&["-y", "--allow-downgrades", "install", "vim"]),
            output: OutputMode::Inherit,
            lock_attempts: None,
        }
    );
}

#[test]
fn apt_get_without_further_arguments() {
    let command = apt_noninteractive(&[]);
    assert_eq!(command.args, owned(&["-y", "--allow-downgrades"]));
}

#[test]
fn apt_get_with_progress_speaks_the_fixed_locale() {
    assert_eq!(
        apt_noninteractive_callback(&["full-upgrade"]),
        Invocation {
            program: "apt-get".to_string(),
            env: vec![
                ("DEBIAN_FRONTEND".to_string(), "noninteractive".to_string()),
                ("LANG".to_string(), "C".to_string()),
            ],
            args: owned(&["-y", "--allow-downgrades", "full-upgrade"]),
            output: OutputMode::Progress,
            lock_attempts: None,
        }
    );
}

#[test]
fn autoremove_waits_for_the_lock() {
    assert_eq!(apt_autoremove(), gated_apt_get(&["autoremove"]));
}

#[test]
fn cache_queries_collect_their_output() {
    assert_eq!(
        apt_cache("depends", &["vim", "git"]),
        Invocation {
            program: "apt-cache".to_string(),
            env: Vec::new(),
            args: owned(&["depends", "vim", "git"]),
            output: OutputMode::Capture,
            lock_attempts: Some(3000),
        }
    );
    assert_eq!(apt_cache("policy", &[]).args, owned(&["policy"]));
}

#[test]
fn install_names_the_packages_in_order() {
    assert_eq!(apt_install(&["vim", "git", "vim"]), gated_apt_get(&["install", "vim", "git", "vim"]));
    assert_eq!(apt_install(&[]), gated_apt_get(&["install"]));
}

#[test]
fn install_fix_broken_takes_no_packages() {
    assert_eq!(apt_install_fix_broken(), gated_apt_get(&["install", "-f"]));
}

#[test]
fn purge_names_the_packages() {
    assert_eq!(apt_purge(&["vim"]), gated_apt_get(&["purge", "vim"]));
}

#[test]
fn reinstall_is_an_install_with_a_flag() {
    assert_eq!(apt_reinstall(&["vim", "git"]), gated_apt_get(&["install", "--reinstall", "vim", "git"]));
}

#[test]
fn remove_also_removes_what_is_no_longer_needed() {
    assert_eq!(apt_remove(&["vim"]), gated_apt_get(&["remove", "--autoremove", "vim"]));
}

#[test]
fn update_takes_no_packages() {
    assert_eq!(apt_update(), gated_apt_get(&["update"]));
}

#[test]
fn upgrade_shows_its_progress() {
    assert_eq!(
        apt_upgrade(),
        Invocation {
            program: "apt-get".to_string(),
            env: vec![
                ("DEBIAN_FRONTEND".to_string(), "noninteractive".to_string()),
                ("LANG".to_string(), "C".to_string()),
            ],
            args: owned(&["-y", "--allow-downgrades", "--show-progress", "full-upgrade"]),
            output: OutputMode::Progress,
            lock_attempts: Some(3000),
        }
    );
}

#[test]
fn dpkg_configures_everything_behind_the_lock() {
    assert_eq!(
        dpkg_configure_all(),
        Invocation {
            program: "dpkg".to_string(),
            env: Vec::new(),
            args: owned(&["--configure", "-a"]),
            output: OutputMode::Inherit,
            lock_attempts: Some(3000),
        }
    );
}

#[test]
fn holding_a_package_does_not_wait_for_the_lock() {
    assert_eq!(
        apt_hold("linux-image-generic"),
        Invocation {
            program: "apt-mark".to_string(),
            env: Vec::new(),
            args: owned(&["hold", "linux-image-generic"]),
            output: OutputMode::Inherit,
            lock_attempts: None,
        }
    );
}

#[test]
fn releasing_a_package_does_not_wait_for_the_lock() {
    assert_eq!(
        apt_unhold("linux-image-generic"),
        Invocation {
            program: "apt-mark".to_string(),
            env: Vec::new(),
            args: owned(&["unhold", "linux-image-generic"]),
            output: OutputMode::Inherit,
            lock_attempts: None,
        }
    );
}

#[test]
fn the_status_query_sets_the_format_of_a_line() {
    assert_eq!(
        installed_query(&["vim", "git"]),
        Invocation {
            program: "dpkg-query".to_string(),
            env: Vec::new(),
            args: owned(&[
                "--show",
                "--showformat=${Package} ${db:Status-Status}\n",
                "vim",
                "git"
            ]),
            output: OutputMode::Capture,
            lock_attempts: None,
        }
    );
}
