use clusterit::keys::{most_recent_private_key, private_key_for, remove_occurrences, KeyFile};
use clusterit::k3::{is_valid_public_key, validate_config, Config, IpAddress, Setup, State};
use clusterit::module::{Command, Module, Step};
use clusterit::setup::{
    add_connection_setup_steps, default_credentials, distribution_from_matches,
    distribution_from_os_release, starting_step, Device, Distribution, SetupError, StepExecuter,
};

#[test]
fn device_from_hostname() {
    assert_eq!(Device::from_str("odroidhc4\n").unwrap(), Device::OdroidHC4);
    assert_eq!(Device::from_str(" raspberrypi").unwrap(), Device::RaspberryPi);
    match Device::from_str("laptop\n") {
        Err(e) => assert_eq!(e.message(), "Could not find divice: laptop\n"),
        Ok(_) => panic!("expected an error"),
    }
}

#[test]
fn distribution_detection() {
    let armbian = "PRETTY_NAME=\"Armbian 21.08 Buster\"\nID=debian\n";
    assert_eq!(distribution_from_os_release(armbian).unwrap(), Distribution::Armbian);
    let ubuntu = "NAME=\"Ubuntu\"\nID=\"ubuntu\"\n";
    assert_eq!(distribution_from_os_release(ubuntu).unwrap(), Distribution::Ubuntu);
    let debian = "ID=\"debian\"\n";
    assert_eq!(distribution_from_os_release(debian).unwrap(), Distribution::Debian);
    let raspbian = "ID=\"raspbian\"\nID_LIKE=\"debian\"\n";
    assert_eq!(distribution_from_os_release(raspbian).unwrap(), Distribution::RaspberryPiOS);
    // The id must be quoted and alone on its line.
    assert!(matches!(
        distribution_from_os_release("ID=debian\n"),
        Err(SetupError::UnsupportedDistribution)
    ));
    assert_eq!(distribution_from_matches(false, true, true, false).unwrap(), Distribution::RaspberryPiOS);
    assert!(distribution_from_matches(false, false, false, false).is_err());
}

#[test]
fn step_executer_runs_from_current_step() {
    let mut e = StepExecuter::new();
    e.add_step("a");
    add_connection_setup_steps(&mut e, "ssh-ed25519 KEY");
    assert_eq!(
        e.pending(),
        vec![
            "a".to_string(),
            "sudo mkdir /root/.ssh".to_string(),
            "sudo sh -c 'echo -n \"ssh-ed25519 KEY\" > /root/.ssh/authorized_keys'".to_string(),
        ]
    );
    e.set_step(2);
    assert_eq!(e.pending().len(), 1);
    e.set_step(9);
    assert!(e.pending().is_empty());
    assert_eq!(StepExecuter::check_step(0, Some(0)), Ok(()));
    assert_eq!(StepExecuter::check_step(1, Some(2)), Err(2));
    assert_eq!(StepExecuter::check_step(4, None), Err(5));
}

#[test]
fn setup_step_choice() {
    assert_eq!(starting_step(Some(3), Some(1)), 3);
    assert_eq!(starting_step(None, Some(1)), 1);
    assert_eq!(starting_step(None, None), 0);
}

#[test]
fn default_credentials_order() {
    let creds = default_credentials();
    let pairs: Vec<(&str, &str)> = creds.iter().map(|(u, p)| (u.as_str(), p.as_str())).collect();
    assert_eq!(pairs, vec![("root", "4321"), ("root", "raspberry"), ("pi", "4321"), ("pi", "raspberry")]);
}

#[test]
fn k3_state_initial() {
    assert!(is_valid_public_key("ssh-rsa AAA"));
    assert!(is_valid_public_key("ecdsa-sha2 AAA"));
    assert!(!is_valid_public_key("rsa AAA"));
    assert!(State::initial("nope".into()).is_err());
    let s = State::initial("ssh-ed25519 K".into()).unwrap();
    assert_eq!(s.node_token_secret.len(), 40);
    assert!(s.node_token_secret.chars().all(|c| c.is_ascii_alphanumeric()));
    assert_eq!(s.ip_offset, 100);
    assert_eq!(s.ip_gateway, IpAddress::V4(192, 168, 2, 254));
    assert_eq!(s.get_pub_ssh_key(), "ssh-ed25519 K");
    assert!(s.node_token.is_none());
}

#[test]
fn k3_find_setup() {
    let mut s = State::initial("ssh-ed25519 K".into()).unwrap();
    let ip = IpAddress::V4(10, 0, 0, 1);
    assert!(s.find_setup(&ip).is_none());
    s.setup.push((ip, Setup { step: 4, ip }));
    assert_eq!(s.find_setup(&ip).unwrap().step, 4);
}

#[test]
fn k3_config_validation() {
    assert!(validate_config(&Config { ssh_key_path: None }, false).is_ok());
    assert!(validate_config(&Config { ssh_key_path: Some("/k".into()) }, true).is_ok());
    assert_eq!(
        validate_config(&Config { ssh_key_path: Some("/k".into()) }, false).unwrap_err(),
        "ssh_key_path (Some(\"/k\")) does not exist"
    );
}

#[test]
fn module_commands_in_order() {
    let m = Module {
        name: "m".into(),
        steps: vec![
            Step { commands: vec![Command { command: "a".into(), fallback: None }] },
            Step { commands: vec![] },
            Step {
                commands: vec![
                    Command { command: "b".into(), fallback: None },
                    Command { command: "c".into(), fallback: None },
                ],
            },
        ],
    };
    assert_eq!(m.commands(), vec!["a".to_string(), "b".to_string(), "c".to_string()]);
}

#[test]
fn module_from_arena_takes_root_name() {
    use_module_from_arena();
}

fn use_module_from_arena() {
    let mut st = clusterit::parse::ParseState::begin("mod.cf".into(), clusterit::parse::Syntax::Clusterfile);
    st.feed_line("cmd x\n").unwrap();
    st.feed_line("# note\n").unwrap();
    st.feed_line("cmd y\n").unwrap();
    st.feed_line("\n").unwrap();
    st.feed_line("fmd z\n").unwrap();
    st.feed_line("cmd w\n").unwrap();
    let arena = st.finish().unwrap();
    let m = Module::from_arena(&arena, vec![]);
    assert_eq!(m.name, "mod.cf");
    assert_eq!(m.steps.len(), 2);
    let first: Vec<&str> = m.steps[0].commands.iter().map(|c| c.command.as_str()).collect();
    assert_eq!(first, vec!["x", "y"]);
    let second: Vec<&str> = m.steps[1].commands.iter().map(|c| c.command.as_str()).collect();
    assert_eq!(second, vec!["w"]);
    assert!(m.steps[0].commands.iter().all(|c| c.fallback.is_none()));
}

#[test]
fn key_file_names() {
    assert_eq!(private_key_for("id_rsa.pub").unwrap(), "id_rsa");
    assert_eq!(private_key_for("id_x.pub.pub").unwrap(), "id_x");
    assert!(private_key_for("id_rsa").is_none());
    assert!(private_key_for("key.pub").is_none());
    assert_eq!(remove_occurrences("a.pub.b.pubx", ".pub"), "a.bx");
    assert_eq!(remove_occurrences("..pubb", ".pub"), ".b");
    let files = vec![
        KeyFile { name: "id_a".into(), modified: 5 },
        KeyFile { name: "id_b.pub".into(), modified: 9 },
        KeyFile { name: "config".into(), modified: 20 },
        KeyFile { name: "id_c".into(), modified: 9 },
    ];
    assert_eq!(most_recent_private_key(&files).unwrap(), "id_b");
    assert!(most_recent_private_key(&vec![KeyFile { name: "id_z".into(), modified: 0 }]).is_none());
}

#[test]
fn k3_loaded_state_refuses_repeated_addresses() {
    let a = IpAddress::V4(10, 0, 0, 1);
    let b = IpAddress::V4(10, 0, 0, 2);
    let load = |setup: Vec<(IpAddress, Setup)>| {
        State::loaded("t".into(), None, "ssh-rsa K".into(), 100, a, vec![], setup)
    };
    let s = load(vec![(a, Setup { step: 1, ip: a }), (b, Setup { step: 2, ip: b })]).unwrap();
    assert_eq!(s.find_setup(&b).unwrap().step, 2);
    assert!(load(vec![(a, Setup { step: 1, ip: a }), (a, Setup { step: 2, ip: a })]).is_none());
}
