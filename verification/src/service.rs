//! The remote paths of a deployment target and the requests that install,
//! stop, back up, replace and start its service.

use vstd::prelude::*;
use vstd::utf8::encode_utf8;
use crate::crateinfo::CrateInfo;
use crate::crateinfo::Opt;
use crate::path::rendered;
use crate::path::with_child;
use crate::path::FsPath;
use crate::path::PathModel;
use crate::session::make_dir;
use crate::session::make_dir_text;
use crate::session::request_views;
use crate::session::send_file;
use crate::session::upload;
use crate::session::Request;
use crate::session::RequestModel;
use crate::session::EXECUTABLE_MODE;
use crate::session::UNIT_FILE_MODE;
use crate::transfer::Transfer;

verus! {

/// The deployment root of the target `name`: under the isolated root where
/// `isolated`, else under `/opt`.
pub open spec fn base_path(name: Seq<char>, isolated: bool) -> PathModel {
    PathModel {
        absolute: true,
        segments: if isolated {
            seq!["opt"@, "chroot"@, "apps"@, name]
        } else {
            seq!["opt"@, name]
        },
    }
}

/// Where the executable of the target lies: in the deployment root, under the
/// target's name.
pub open spec fn executable_path(name: Seq<char>, isolated: bool) -> PathModel {
    with_child(base_path(name, isolated), name)
}

/// The name of the target's unit.
pub open spec fn unit_name(name: Seq<char>) -> Seq<char> {
    name + ".service"@
}

/// The text of a lifecycle command (`verb` ends in a space) for the unit.
pub open spec fn lifecycle_text(verb: Seq<char>, name: Seq<char>) -> Seq<char> {
    verb + unit_name(name)
}

/// The environment pairs, each as `key=value`, written one after another.
pub open spec fn env_text(env: Seq<(Seq<char>, Seq<char>)>) -> Seq<char>
    decreases env.len(),
{
    if env.len() == 0 {
        Seq::empty()
    } else {
        env_text(env.drop_last()) + env.last().0 + "="@ + env.last().1
    }
}

/// The command that starts the service: the executable itself, or, in the
/// isolated environment, the executable entered through `chroot`.
pub open spec fn start_command(name: Seq<char>, isolated: bool) -> Seq<char> {
    if isolated {
        "chroot /opt/chroot /apps/"@ + name + "/"@ + name
    } else {
        rendered(executable_path(name, isolated))
    }
}

/// The unit definition of the target.
pub open spec fn service_text(
    name: Seq<char>,
    env: Seq<(Seq<char>, Seq<char>)>,
    isolated: bool,
) -> Seq<char> {
    "[Unit]\nDescription="@ + name + "\nAfter=syslog.target network.target\n\n[Service]\nExecStart="@
        + start_command(name, isolated) + "\nWorkingDirectory="@ + rendered(
        base_path(name, isolated),
    ) + "\nEnvironment=\""@ + env_text(env) + "\"\n\n[Install]\nWantedBy=multi-user.target"@
}

/// The pairs of `env`, each by its views.
pub open spec fn env_views(env: Seq<(String, String)>) -> Seq<(Seq<char>, Seq<char>)> {
    Seq::new(env.len(), |i: int| (env[i].0@, env[i].1@))
}

/// Where the unit definition is uploaded to.
pub open spec fn unit_file_text(name: Seq<char>) -> Seq<char> {
    "/lib/systemd/system/"@ + unit_name(name)
}

/// The two requests that install the unit: upload its definition, enable it.
pub open spec fn install_requests(name: Seq<char>, isolated: bool) -> Seq<RequestModel> {
    seq![
        RequestModel::Send {
            remote: unit_file_text(name),
            mode: UNIT_FILE_MODE as int,
            content: encode_utf8(service_text(name, Seq::empty(), isolated)),
        },
        RequestModel::Execute { command: lifecycle_text("systemctl enable "@, name) },
    ]
}

/// The requests that create the service's directories.
pub open spec fn create_dirs_requests(name: Seq<char>, isolated: bool) -> Seq<RequestModel> {
    seq![RequestModel::Execute { command: make_dir_text(base_path(name, isolated)) }]
}

/// The command that renames the executable to its backup beside it.
pub open spec fn backup_text(name: Seq<char>, isolated: bool) -> Seq<char> {
    "mv "@ + rendered(executable_path(name, isolated)) + " "@ + rendered(
        executable_path(name, isolated),
    ) + ".bak"@
}

/// Where the built executable lies locally.
pub open spec fn local_executable_text(name: Seq<char>, musl: bool) -> Seq<char> {
    if musl {
        "/opt/cargo/target/x86_64-unknown-linux-musl/release/"@ + name
    } else {
        "/opt/cargo/target/x86_64-unknown-linux-gnu/release/"@ + name
    }
}

/// The command that runs `cmd` in the deployment root.
pub open spec fn post_command_text(name: Seq<char>, cmd: Seq<char>, isolated: bool) -> Seq<char> {
    "cd "@ + rendered(base_path(name, isolated)) + " && "@ + cmd
}

/// The deployment root of the target.
pub fn get_base_path(crateinfo: &CrateInfo, opt: &Opt) -> (r: FsPath)
    ensures
        r@ == base_path(crateinfo.name@, opt.fakechroot),
{
    let root = FsPath::new(true).child("opt");
    let r = if opt.fakechroot {
        root.child("chroot").child("apps").child(crateinfo.crate_name())
    } else {
        root.child(crateinfo.crate_name())
    };
    proof {
        assert(r@.segments =~= base_path(crateinfo.name@, opt.fakechroot).segments);
    }
    r
}

/// Where the executable of the target lies remotely.
pub fn get_executable_path(crateinfo: &CrateInfo, opt: &Opt) -> (r: FsPath)
    ensures
        r@ == executable_path(crateinfo.name@, opt.fakechroot),
{
    get_base_path(crateinfo, opt).child(crateinfo.crate_name())
}

/// The directories that the service needs: its deployment root.
pub fn get_service_dirs(crateinfo: &CrateInfo, opt: &Opt) -> (r: Vec<FsPath>)
    ensures
        r@.len() == 1,
        r@[0]@ == base_path(crateinfo.name@, opt.fakechroot),
{
    let mut dirs: Vec<FsPath> = Vec::new();
    dirs.push(get_base_path(crateinfo, opt));
    dirs
}

fn environment_line(env: &Vec<(String, String)>) -> (r: String)
    ensures
        r@ == env_text(env_views(env@)),
{
    let mut out = String::new();
    let mut i: usize = 0;
    proof {
        assert(env_views(env@).take(0).len() == 0);
    }
    while i < env.len()
        invariant
            i <= env.len(),
            out@ == env_text(env_views(env@).take(i as int)),
        decreases env.len() - i,
    {
        proof {
            let all = env_views(env@);
            assert(all.take(i + 1).drop_last() =~= all.take(i as int));
            assert(all.take(i + 1).last() == (env@[i as int].0@, env@[i as int].1@));
        }
        out.append(env[i].0.as_str());
        out.append("=");
        out.append(env[i].1.as_str());
        i += 1;
    }
    proof {
        assert(env_views(env@).take(i as int) =~= env_views(env@));
    }
    out
}

fn start_command_line(crateinfo: &CrateInfo, opt: &Opt) -> (r: String)
    ensures
        r@ == start_command(crateinfo.name@, opt.fakechroot),
{
    if opt.fakechroot {
        let mut out = String::from_str("chroot /opt/chroot /apps/");
        out.append(crateinfo.crate_name());
        out.append("/");
        out.append(crateinfo.crate_name());
        out
    } else {
        get_executable_path(crateinfo, opt).render()
    }
}

/// The unit definition: description, start order, start command, working
/// directory, one environment line, install target.
pub fn make_service_file(crateinfo: &CrateInfo, env: &Vec<(String, String)>, opt: &Opt) -> (r:
    String)
    ensures
        r@ == service_text(crateinfo.name@, env_views(env@), opt.fakechroot),
{
    let exec_cmd = start_command_line(crateinfo, opt);
    let pwd = get_base_path(crateinfo, opt).render();
    let env_line = environment_line(env);
    let mut out = String::from_str("[Unit]\nDescription=");
    out.append(crateinfo.crate_name());
    out.append("\nAfter=syslog.target network.target\n\n[Service]\nExecStart=");
    out.append(exec_cmd.as_str());
    out.append("\nWorkingDirectory=");
    out.append(pwd.as_str());
    out.append("\nEnvironment=\"");
    out.append(env_line.as_str());
    out.append("\"\n\n[Install]\nWantedBy=multi-user.target");
    out
}

fn lifecycle_request(verb: &str, crateinfo: &CrateInfo) -> (r: Request)
    ensures
        r@ == (RequestModel::Execute { command: lifecycle_text(verb@, crateinfo.name@) }),
{
    let mut command = String::from_str(verb);
    command.append(crateinfo.crate_name());
    command.append(".service");
    proof {
        assert(command@ =~= lifecycle_text(verb@, crateinfo.name@));
    }
    Request::Execute { command }
}

/// The requests that install the unit: its definition, with no environment,
/// uploaded to the system's unit directory, then the command that enables it.
pub fn install_systemd_service(crateinfo: &CrateInfo, opt: &Opt) -> (r: Vec<Request>)
    ensures
        request_views(r@) == install_requests(crateinfo.name@, opt.fakechroot),
{
    let env: Vec<(String, String)> = Vec::new();
    let text = make_service_file(crateinfo, &env, opt);
    let mut remote = String::from_str("/lib/systemd/system/");
    remote.append(crateinfo.crate_name());
    remote.append(".service");
    let mut requests: Vec<Request> = Vec::new();
    requests.push(
        Request::Send { remote, mode: UNIT_FILE_MODE, content: text.as_str().as_bytes_vec() },
    );
    requests.push(lifecycle_request("systemctl enable ", crateinfo));
    proof {
        assert(env_views(env@) =~= Seq::empty());
        assert(remote@ =~= unit_file_text(crateinfo.name@));
        assert(request_views(requests@) =~= install_requests(crateinfo.name@, opt.fakechroot));
    }
    requests
}

/// The request that stops the unit.
pub fn stop_systemd_service(crateinfo: &CrateInfo) -> (r: Request)
    ensures
        r@ == (RequestModel::Execute {
            command: lifecycle_text("systemctl stop "@, crateinfo.name@),
        }),
{
    lifecycle_request("systemctl stop ", crateinfo)
}

/// The request that starts the unit.
pub fn start_systemd_service(crateinfo: &CrateInfo) -> (r: Request)
    ensures
        r@ == (RequestModel::Execute {
            command: lifecycle_text("systemctl start "@, crateinfo.name@),
        }),
{
    lifecycle_request("systemctl start ", crateinfo)
}

/// The requests that make sure that the service's directories exist.
pub fn create_service_dirs(crateinfo: &CrateInfo, opt: &Opt) -> (r: Vec<Request>)
    ensures
        request_views(r@) == create_dirs_requests(crateinfo.name@, opt.fakechroot),
{
    let dirs = get_service_dirs(crateinfo, opt);
    let mut requests: Vec<Request> = Vec::new();
    let mut i: usize = 0;
    while i < dirs.len()
        invariant
            i <= dirs.len(),
            dirs@.len() == 1,
            dirs@[0]@ == base_path(crateinfo.name@, opt.fakechroot),
            requests@.len() == i,
            forall|j: int|
                0 <= j < i ==> (#[trigger] requests@[j])@ == (RequestModel::Execute {
                    command: make_dir_text(dirs@[j]@),
                }),
        decreases dirs.len() - i,
    {
        requests.push(make_dir(&dirs[i]));
        i += 1;
    }
    proof {
        assert(request_views(requests@) =~= create_dirs_requests(
            crateinfo.name@,
            opt.fakechroot,
        ));
    }
    requests
}

/// The request that renames the current executable to its backup: the same
/// path with `.bak` behind it. Nothing is copied. Where no executable is
/// there the remote `mv` fails; since the session does not read exit
/// statuses, the run learns of it only through an error of the session.
pub fn make_backup_executable(crateinfo: &CrateInfo, opt: &Opt) -> (r: Request)
    ensures
        r@ == (RequestModel::Execute { command: backup_text(crateinfo.name@, opt.fakechroot) }),
{
    let exec_path = get_executable_path(crateinfo, opt).render();
    let mut command = String::from_str("mv ");
    command.append(exec_path.as_str());
    command.append(" ");
    command.append(exec_path.as_str());
    command.append(".bak");
    Request::Execute { command }
}

/// Where the built executable lies locally, for the chosen build variant.
pub fn local_executable(crateinfo: &CrateInfo, opt: &Opt) -> (r: String)
    ensures
        r@ == local_executable_text(crateinfo.name@, opt.musl),
{
    let mut local = if opt.musl {
        String::from_str("/opt/cargo/target/x86_64-unknown-linux-musl/release/")
    } else {
        String::from_str("/opt/cargo/target/x86_64-unknown-linux-gnu/release/")
    };
    local.append(crateinfo.crate_name());
    local
}

/// The request that uploads the new executable, whose bytes are `content`,
/// to its remote path, as an executable file.
pub fn push_executable(crateinfo: &CrateInfo, opt: &Opt, content: Vec<u8>) -> (r: Request)
    ensures
        r@ == upload(
            executable_path(crateinfo.name@, opt.fakechroot),
            EXECUTABLE_MODE as int,
            content@,
        ),
{
    let remote = get_executable_path(crateinfo, opt);
    send_file(content, &remote, EXECUTABLE_MODE)
}

/// One transfer for each resource, in their order, each into the deployment
/// root.
pub fn push_resources(resources: &Vec<FsPath>, crateinfo: &CrateInfo, opt: &Opt) -> (r: Vec<
    Transfer,
>)
    ensures
        r@.len() == resources@.len(),
        forall|i: int|
            0 <= i < r@.len() ==> (#[trigger] r@[i]).wf() && r@[i].starts(
                resources@[i]@,
                base_path(crateinfo.name@, opt.fakechroot),
            ),
{
    let mut transfers: Vec<Transfer> = Vec::new();
    let mut i: usize = 0;
    while i < resources.len()
        invariant
            i <= resources.len(),
            transfers@.len() == i,
            forall|j: int|
                0 <= j < i ==> (#[trigger] transfers@[j]).wf() && transfers@[j].starts(
                    resources@[j]@,
                    base_path(crateinfo.name@, opt.fakechroot),
                ),
        decreases resources.len() - i,
    {
        transfers.push(Transfer::new(resources[i].duplicate(), get_base_path(crateinfo, opt)));
        i += 1;
    }
    transfers
}

/// The requests of the initial setup: install the unit, then create the
/// service's directories.
pub fn preinstall(crateinfo: &CrateInfo, opt: &Opt) -> (r: Vec<Request>)
    ensures
        request_views(r@) == install_requests(crateinfo.name@, opt.fakechroot)
            + create_dirs_requests(crateinfo.name@, opt.fakechroot),
{
    let mut requests = install_systemd_service(crateinfo, opt);
    let mut dirs = create_service_dirs(crateinfo, opt);
    let ghost first = request_views(requests@);
    let ghost second = request_views(dirs@);
    requests.append(&mut dirs);
    proof {
        assert(request_views(requests@) =~= first + second);
    }
    requests
}

/// The request that runs `cmd` in the deployment root.
pub fn execute_post_command(crateinfo: &CrateInfo, cmd: &str, opt: &Opt) -> (r: Request)
    ensures
        r@ == (RequestModel::Execute {
            command: post_command_text(crateinfo.name@, cmd@, opt.fakechroot),
        }),
{
    let pwd = get_base_path(crateinfo, opt).render();
    let mut command = String::from_str("cd ");
    command.append(pwd.as_str());
    command.append(" && ");
    command.append(cmd);
    Request::Execute { command }
}

} // verus!
