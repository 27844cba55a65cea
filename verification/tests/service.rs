use deploy_rs::chroot::prepare_chroot;
use deploy_rs::crateinfo::CrateInfo;
use deploy_rs::crateinfo::Opt;
use deploy_rs::service::create_service_dirs;
use deploy_rs::service::execute_post_command;
use deploy_rs::service::get_base_path;
use deploy_rs::service::get_executable_path;
use deploy_rs::service::get_service_dirs;
use deploy_rs::service::install_systemd_service;
use deploy_rs::service::local_executable;
use deploy_rs::service::make_backup_executable;
use deploy_rs::service::make_service_file;
use deploy_rs::service::preinstall;
use deploy_rs::service::push_executable;
use deploy_rs::service::push_resources;
use deploy_rs::service::start_systemd_service;
use deploy_rs::service::stop_systemd_service;
use deploy_rs::session::check_login;
use deploy_rs::session::credential;
use deploy_rs::session::login_prompt;
use deploy_rs::session::make_dir;
use deploy_rs::session::send_file;
use deploy_rs::session::Credential;
use deploy_rs::session::DeployError;
use deploy_rs::session::Request;
use deploy_rs::session::EXECUTABLE_MODE;
use deploy_rs::session::UNIT_FILE_MODE;
use deploy_rs::path::FsPath;

fn options(fakechroot: bool, musl: bool) -> Opt {
    Opt {
        features: None,
        npm_package: "./frontend".to_string(),
        post_command: None,
        resource_files: None,
        preinstall: false,
        musl,
        fakechroot,
        no_build: false,
        login: "root".to_string(),
        keyfile: None,
        address: "example.org:22".to_string(),
    }
}

fn package(name: &str) -> CrateInfo {
    CrateInfo { name: name.to_string() }
}

fn command_of(request: &Request) -> String {
    match request {
        Request::Execute { command } => command.clone(),
        Request::Send { .. } => panic!("an upload where a command was expected"),
    }
}

#[test]
fn executable_path_outside_isolated_environment() {
    let svc = package("svc");
    let opt = options(false, false);
    assert_eq!(get_base_path(&svc, &opt).render(), "/opt/svc");
    assert_eq!(get_executable_path(&svc, &opt).render(), "/opt/svc/svc");
}

#[test]
fn base_path_inside_isolated_environment() {
    let svc = package("svc");
    let opt = options(true, false);
    assert_eq!(get_base_path(&svc, &opt).render(), "/opt/chroot/apps/svc");
    assert_eq!(get_executable_path(&svc, &opt).render(), "/opt/chroot/apps/svc/svc");
}

#[test]
fn service_dirs_are_the_base_path() {
    let dirs = get_service_dirs(&package("svc"), &options(false, false));
    assert_eq!(dirs.len(), 1);
    assert_eq!(dirs[0].render(), "/opt/svc");
}

#[test]
fn service_file_for_direct_start() {
    let text = make_service_file(&package("svc"), &Vec::new(), &options(false, false));
    assert_eq!(
        text,
        "[Unit]\nDescription=svc\nAfter=syslog.target network.target\n\n[Service]\nExecStart=/opt/svc/svc\nWorkingDirectory=/opt/svc\nEnvironment=\"\"\n\n[Install]\nWantedBy=multi-user.target"
    );
}

#[test]
fn service_file_for_isolated_start_with_environment() {
    let env = vec![
        ("A".to_string(), "1".to_string()),
        ("PORT".to_string(), "8080".to_string()),
    ];
    let text = make_service_file(&package("svc"), &env, &options(true, false));
    assert_eq!(
        text,
        "[Unit]\nDescription=svc\nAfter=syslog.target network.target\n\n[Service]\nExecStart=chroot /opt/chroot /apps/svc/svc\nWorkingDirectory=/opt/chroot/apps/svc\nEnvironment=\"A=1PORT=8080\"\n\n[Install]\nWantedBy=multi-user.target"
    );
}

#[test]
fn install_uploads_unit_then_enables_it() {
    let svc = package("svc");
    let opt = options(false, false);
    let requests = install_systemd_service(&svc, &opt);
    assert_eq!(requests.len(), 2);
    match &requests[0] {
        Request::Send { remote, mode, content } => {
            assert_eq!(remote, "/lib/systemd/system/svc.service");
            assert_eq!(*mode, 0o644);
            assert_eq!(*mode, UNIT_FILE_MODE);
            assert_eq!(content, make_service_file(&svc, &Vec::new(), &opt).as_bytes());
        }
        Request::Execute { .. } => panic!("the unit must be uploaded first"),
    }
    assert_eq!(command_of(&requests[1]), "systemctl enable svc.service");
}

#[test]
fn stop_and_start_name_the_unit() {
    assert_eq!(command_of(&stop_systemd_service(&package("svc"))), "systemctl stop svc.service");
    assert_eq!(command_of(&start_systemd_service(&package("svc"))), "systemctl start svc.service");
}

#[test]
fn create_service_dirs_quotes_the_path() {
    let requests = create_service_dirs(&package("svc"), &options(false, false));
    assert_eq!(requests.len(), 1);
    assert_eq!(command_of(&requests[0]), "mkdir -p \"/opt/svc\"");
}

#[test]
fn make_dir_escapes_what_the_quotes_would_break() {
    let path = FsPath::new(true).child("opt").child("a\"b");
    assert_eq!(command_of(&make_dir(&path)), "mkdir -p \"/opt/a\\\"b\"");
}

#[test]
fn backup_renames_executable_to_bak() {
    let request = make_backup_executable(&package("svc"), &options(false, false));
    assert_eq!(command_of(&request), "mv /opt/svc/svc /opt/svc/svc.bak");
    let isolated = make_backup_executable(&package("svc"), &options(true, false));
    assert_eq!(
        command_of(&isolated),
        "mv /opt/chroot/apps/svc/svc /opt/chroot/apps/svc/svc.bak"
    );
}

#[test]
fn local_executable_depends_on_build_variant() {
    assert_eq!(
        local_executable(&package("svc"), &options(false, true)),
        "/opt/cargo/target/x86_64-unknown-linux-musl/release/svc"
    );
    assert_eq!(
        local_executable(&package("svc"), &options(false, false)),
        "/opt/cargo/target/x86_64-unknown-linux-gnu/release/svc"
    );
}

#[test]
fn push_executable_uploads_bytes_as_executable() {
    let request = push_executable(&package("svc"), &options(false, false), vec![1, 2, 3, 255]);
    match request {
        Request::Send { remote, mode, content } => {
            assert_eq!(remote, "/opt/svc/svc");
            assert_eq!(mode, 0o755);
            assert_eq!(mode, EXECUTABLE_MODE);
            assert_eq!(content, vec![1, 2, 3, 255]);
        }
        Request::Execute { .. } => panic!("an upload was expected"),
    }
}

#[test]
fn send_file_keeps_content_and_mode() {
    let request = send_file(vec![0, 7, 9], &FsPath::parse("/srv/data.bin"), 0o600);
    match request {
        Request::Send { remote, mode, content } => {
            assert_eq!(remote, "/srv/data.bin");
            assert_eq!(mode, 0o600);
            assert_eq!(content, vec![0, 7, 9]);
        }
        Request::Execute { .. } => panic!("an upload was expected"),
    }
}

#[test]
fn push_resources_starts_one_transfer_each() {
    let resources = vec![FsPath::parse("static"), FsPath::parse("./templates")];
    let transfers = push_resources(&resources, &package("svc"), &options(false, false));
    assert_eq!(transfers.len(), 2);
    assert_eq!(transfers[0].remote.render(), "/opt/svc");
    assert_eq!(transfers[0].pending.len(), 1);
    assert_eq!(transfers[0].pending[0].render(), "static");
    assert!(transfers[0].visited.is_empty());
    assert_eq!(transfers[1].pending[0].render(), "./templates");
    assert!(push_resources(&Vec::new(), &package("svc"), &options(false, false)).is_empty());
}

#[test]
fn preinstall_installs_then_creates_dirs() {
    let requests = preinstall(&package("svc"), &options(false, false));
    assert_eq!(requests.len(), 3);
    assert!(matches!(&requests[0], Request::Send { .. }));
    assert_eq!(command_of(&requests[1]), "systemctl enable svc.service");
    assert_eq!(command_of(&requests[2]), "mkdir -p \"/opt/svc\"");
}

#[test]
fn post_command_runs_in_base_path() {
    let request = execute_post_command(&package("svc"), "./migrate --all", &options(false, false));
    assert_eq!(command_of(&request), "cd /opt/svc && ./migrate --all");
}

#[test]
fn prepare_chroot_bootstraps_isolated_root() {
    assert_eq!(
        command_of(&prepare_chroot()),
        "debootstrap --variant=buildd hirsute /opt/chroot"
    );
}

#[test]
fn load_reads_the_package_name() {
    let info = CrateInfo::load("[package]\nname = \"svc\"\nversion = \"0.1.0\"\n").unwrap();
    assert_eq!(info.crate_name(), "svc");
    let other = CrateInfo::load("[package]\nname = \"other-tool\"\nversion = \"1.2.3\"\n").unwrap();
    assert_eq!(other.crate_name(), "other-tool");
}

#[test]
fn load_rejects_descriptor_without_package() {
    let result = CrateInfo::load("[workspace]\nmembers = [\"a\"]\n");
    assert_eq!(result.err(), Some(DeployError::Configuration));
}

#[test]
fn load_rejects_text_that_is_no_descriptor() {
    let result = CrateInfo::load("this is [not toml");
    assert_eq!(result.err(), Some(DeployError::Configuration));
}

#[test]
fn from_manifest_maps_each_outcome() {
    let named = CrateInfo::from_manifest(Ok(Some("svc".to_string()))).unwrap();
    assert_eq!(named.name, "svc");
    assert_eq!(CrateInfo::from_manifest(Ok(None)).err(), Some(DeployError::Configuration));
    assert_eq!(
        CrateInfo::from_manifest(Err(cargo_toml::Error::Other("unreadable"))).err(),
        Some(DeployError::Configuration)
    );
}

#[test]
fn cargo_target_prefers_configured_then_shared_then_local() {
    let svc = package("svc");
    assert_eq!(svc.cargo_target(Some("/tmp/t".to_string()), true), "/tmp/t");
    assert_eq!(svc.cargo_target(Some("/tmp/t".to_string()), false), "/tmp/t");
    assert_eq!(svc.cargo_target(None, true), "/opt/cargo/target");
    assert_eq!(svc.cargo_target(None, false), "./target");
}

#[test]
fn resources_split_the_list_at_commas() {
    let mut opt = options(false, false);
    assert!(opt.resources().is_empty());
    opt.resource_files = Some("static,./templates,/etc/svc.conf".to_string());
    let resources = opt.resources();
    assert_eq!(resources.len(), 3);
    assert_eq!(resources[0].render(), "static");
    assert_eq!(resources[1].render(), "./templates");
    assert_eq!(resources[2].render(), "/etc/svc.conf");
}

#[test]
fn credential_with_keys_uses_entered_passphrase() {
    let keys = Some(("id.pub".to_string(), "id".to_string()));
    match credential(keys, "secret".to_string()) {
        Credential::KeyPair { public_key, private_key, passphrase } => {
            assert_eq!(public_key, "id.pub");
            assert_eq!(private_key, "id");
            assert_eq!(passphrase, Some("secret".to_string()));
        }
        Credential::Password { .. } => panic!("a key pair was given"),
    }
}

#[test]
fn credential_with_keys_and_nothing_entered_has_no_passphrase() {
    let keys = Some(("id.pub".to_string(), "id".to_string()));
    match credential(keys, String::new()) {
        Credential::KeyPair { passphrase, .. } => assert_eq!(passphrase, None),
        Credential::Password { .. } => panic!("a key pair was given"),
    }
}

#[test]
fn credential_without_keys_is_a_password() {
    match credential(None, "hunter2".to_string()) {
        Credential::Password { password } => assert_eq!(password, "hunter2"),
        Credential::KeyPair { .. } => panic!("no key pair was given"),
    }
}

#[test]
fn login_prompt_names_what_is_asked() {
    assert_eq!(login_prompt(true), "Key password:");
    assert_eq!(login_prompt(false), "Password:");
}

#[test]
fn check_login_fails_when_not_authenticated() {
    assert_eq!(check_login(true, true), Ok(()));
    assert_eq!(check_login(true, false), Err(DeployError::Authentication));
}

#[test]
fn credential_password_loses_surrounding_white_space() {
    match credential(None, "  hunter2 \n".to_string()) {
        Credential::Password { password } => assert_eq!(password, "hunter2"),
        Credential::KeyPair { .. } => panic!("no key pair was given"),
    }
}

#[test]
fn keys_put_the_public_key_beside_the_private_one() {
    let mut opt = options(false, false);
    assert_eq!(opt.keys(), None);
    opt.keyfile = Some("/home/me/.ssh/id_rsa".to_string());
    assert_eq!(
        opt.keys(),
        Some(("/home/me/.ssh/id_rsa.pub".to_string(), "/home/me/.ssh/id_rsa".to_string()))
    );
    opt.keyfile = Some("keys/deploy.pem".to_string());
    assert_eq!(opt.keys(), Some(("keys/deploy.pub".to_string(), "keys/deploy.pem".to_string())));
}

#[test]
fn check_login_without_transport_is_a_transport_failure() {
    assert_eq!(check_login(false, false), Err(DeployError::Transport));
    assert_eq!(check_login(false, true), Err(DeployError::Transport));
}
