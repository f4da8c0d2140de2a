use userdirs::resolver::resolve_from_matches;
use userdirs::sandbox::{
    decide_response, plan_request, ContentTree, Decision, FsNode, RequestPlan, Response,
};

// Serving an existing file: the username resolves, the path is contained,
// and the file node streams its bytes.
#[test]
fn existing_file_is_served() {
    let resolved = resolve_from_matches(&vec![String::from("/home/jdoe")]);
    assert_eq!(resolved, Some(String::from("/home/jdoe")));
    let plan = plan_request(ContentTree::Public, resolved, String::from("notes.txt"));
    let RequestPlan::Stat { full_path, rel } = plan else {
        panic!("a resolved, contained request must reach a metadata inspection");
    };
    assert_eq!(full_path, "/home/jdoe/public_html/notes.txt");
    // the filesystem reports a regular file at the served path
    let d = decide_response(ContentTree::Public, "jdoe", rel.as_str(), full_path.as_str(), FsNode::File);
    assert!(
        d == Decision::Respond(Response::SendFile {
            path: String::from("/home/jdoe/public_html/notes.txt"),
        })
    );
}

// Requesting a path that does not exist under the resolved home: not found.
#[test]
fn missing_path_is_not_found() {
    let resolved = resolve_from_matches(&vec![String::from("/home/jdoe")]);
    let plan = plan_request(ContentTree::Public, resolved, String::from("missing"));
    let RequestPlan::Stat { full_path, rel } = plan else {
        panic!("a resolved, contained request must reach a metadata inspection");
    };
    assert_eq!(full_path, "/home/jdoe/public_html/missing");
    // the filesystem reports no entry at the served path
    let d = decide_response(ContentTree::Public, "jdoe", rel.as_str(), full_path.as_str(), FsNode::Missing);
    assert!(d == Decision::Respond(Response::NotFound));
}

// A username with no identity record: resolution fails closed and the plan
// replies not found without composing any path.
#[test]
fn unresolved_username_is_not_found() {
    let resolved = resolve_from_matches(&Vec::new());
    assert_eq!(resolved, None);
    let plan = plan_request(ContentTree::Public, resolved, String::from("/"));
    assert!(plan == RequestPlan::Reply(Response::NotFound));
}
