use deploy_rs::path::FsPath;
use deploy_rs::session::Request;
use deploy_rs::transfer::Found;
use deploy_rs::tree::send_files;
use deploy_rs::tree::LocalTree;
use deploy_rs::tree::Node;

fn file(path: &str, content: &[u8]) -> Node {
    Node {
        path: FsPath::parse(path),
        found: Found::File { content: content.to_vec() },
        entries: Vec::new(),
    }
}

fn dir(path: &str, entries: &[&str]) -> Node {
    Node {
        path: FsPath::parse(path),
        found: Found::Directory,
        entries: entries.iter().map(|e| FsPath::parse(e)).collect(),
    }
}

fn texts(requests: &[Request]) -> Vec<String> {
    requests
        .iter()
        .map(|r| match r {
            Request::Execute { command } => command.clone(),
            Request::Send { remote, mode, content } => {
                format!("send {} {:o} {:?}", remote, mode, content)
            }
        })
        .collect()
}

fn rendered(paths: &[FsPath]) -> Vec<String> {
    paths.iter().map(|p| p.render()).collect()
}

#[test]
fn send_files_of_a_small_tree() {
    let tree = LocalTree {
        nodes: vec![dir("www", &["www/a.txt", "www/sub"]), file("www/a.txt", b"A"), dir("www/sub", &["www/sub/b.txt"]), file("www/sub/b.txt", b"B")],
    };
    let (visits, requests) = send_files(&tree, FsPath::parse("www"), FsPath::parse("/opt/svc"));
    assert_eq!(rendered(&visits), vec!["www", "www/sub", "www/sub/b.txt", "www/a.txt"]);
    assert_eq!(
        texts(&requests),
        vec![
            "mkdir -p \"/opt/svc/www\"",
            "mkdir -p \"/opt/svc/www/sub\"",
            "send /opt/svc/www/sub/b.txt 755 [66]",
            "send /opt/svc/www/a.txt 755 [65]",
        ]
    );
}

#[test]
fn send_files_visits_each_path_once_despite_cycles() {
    let tree = LocalTree {
        nodes: vec![
            dir("a", &["a/b", "a", "a/f", "a/b"]),
            dir("a/b", &["a", "a/f", "a/b"]),
            file("a/f", &[7]),
        ],
    };
    let (visits, requests) = send_files(&tree, FsPath::parse("a"), FsPath::parse("/srv"));
    let mut seen = rendered(&visits);
    assert_eq!(seen[0], "a");
    seen.sort();
    assert_eq!(seen, vec!["a", "a/b", "a/f"]);
    assert_eq!(requests.len(), 3);
    assert_eq!(texts(&requests)[0], "mkdir -p \"/srv/a\"");
}

#[test]
fn send_files_of_a_path_that_is_not_recorded() {
    let tree = LocalTree { nodes: vec![file("x", b"x")] };
    let (visits, requests) = send_files(&tree, FsPath::parse("y"), FsPath::parse("/srv"));
    assert_eq!(rendered(&visits), vec!["y"]);
    assert!(requests.is_empty());
}

#[test]
fn send_files_of_an_empty_directory() {
    let tree = LocalTree { nodes: vec![dir("d", &[])] };
    let (visits, requests) = send_files(&tree, FsPath::parse("d"), FsPath::parse("/srv"));
    assert_eq!(rendered(&visits), vec!["d"]);
    assert_eq!(texts(&requests), vec!["mkdir -p \"/srv/d\""]);
}

#[test]
fn find_takes_the_first_node_of_a_path() {
    let tree = LocalTree { nodes: vec![file("x", b"first"), file("x", b"second"), dir("d", &["d/e"])] };
    match tree.find(&FsPath::parse("x")) {
        (Found::File { content }, entries) => {
            assert_eq!(content, b"first".to_vec());
            assert!(entries.is_empty());
        }
        _ => panic!("a file lies at x"),
    }
    match tree.find(&FsPath::parse("d")) {
        (Found::Directory, entries) => assert_eq!(rendered(&entries), vec!["d/e"]),
        _ => panic!("a directory lies at d"),
    }
    let (found, entries) = tree.find(&FsPath::parse("missing"));
    assert!(matches!(found, Found::Other));
    assert!(entries.is_empty());
}

#[test]
fn child_of_a_directory_goes_below_its_remote_counterpart() {
    let tree = LocalTree { nodes: vec![dir("./d", &["./d/f"]), file("./d/f", &[1, 2])] };
    let (_, requests) = send_files(&tree, FsPath::parse("./d"), FsPath::parse("/srv"));
    assert_eq!(texts(&requests), vec!["mkdir -p \"/srv/d\"", "send /srv/d/f 755 [1, 2]"]);
}

#[test]
fn entries_of_a_file_are_not_followed() {
    let mut odd = file("x", b"x");
    odd.entries = vec![FsPath::parse("x/y")];
    let tree = LocalTree { nodes: vec![odd, file("x/y", b"y")] };
    let (visits, requests) = send_files(&tree, FsPath::parse("x"), FsPath::parse("/srv"));
    assert_eq!(rendered(&visits), vec!["x"]);
    assert_eq!(texts(&requests), vec!["send /srv/x 755 [120]"]);
}
