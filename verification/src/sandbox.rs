//! Path sandbox and router: normalizes the user-supplied relative path,
//! rejects any path that could escape the content sub-root (parent-directory
//! traversal segments or absolute overrides) before any filesystem access,
//! composes the served path from home directory, fixed sub-root and relative
//! path, and decides the response shape from the filesystem node kind.

use vstd::prelude::*;

verus! {

/// A relative path is an absolute override when it begins with a separator,
/// which would discard the sandbox prefix on composition.
pub open spec fn is_absolute(s: Seq<char>) -> bool {
    s.len() > 0 && s[0] == '/'
}

/// There is a parent-directory traversal segment `..` at position `i`:
/// two dots delimited on both sides by a separator or by an end of the path.
pub open spec fn is_traversal_at(s: Seq<char>, i: int) -> bool {
    &&& 0 <= i
    &&& i + 2 <= s.len()
    &&& s[i] == '.'
    &&& s[i + 1] == '.'
    &&& (i == 0 || s[i - 1] == '/')
    &&& (i + 2 == s.len() || s[i + 2] == '/')
}

/// The path contains a parent-directory traversal segment somewhere.
pub open spec fn has_traversal_segment(s: Seq<char>) -> bool {
    exists|i: int| is_traversal_at(s, i)
}

/// Containment invariant on the user-supplied relative path: composed under
/// the sub-root, the path cannot resolve outside it — it neither overrides
/// the prefix with an absolute path nor steps upward past it.
pub open spec fn rel_path_allowed(s: Seq<char>) -> bool {
    !is_absolute(s) && !has_traversal_segment(s)
}

/// Checks the containment invariant on a relative path, before any
/// filesystem access: no absolute override, no `..` segment.
pub fn check_rel_path(rel: &str) -> (ok: bool)
    ensures
        ok == rel_path_allowed(rel@),
{
    let n = rel.unicode_len();
    if n > 0 && rel.get_char(0) == '/' {
        return false;
    }
    assert(!is_absolute(rel@));
    let mut i: usize = 0;
    while n >= 2 && i <= n - 2
        invariant
            n == rel@.len(),
            i <= n,
            forall|j: int| j < i ==> !is_traversal_at(rel@, j),
        decreases n - i,
    {
        if rel.get_char(i) == '.' && rel.get_char(i + 1) == '.' && (i == 0 || rel.get_char(i - 1)
            == '/') && (i + 2 == n || rel.get_char(i + 2) == '/') {
            assert(is_traversal_at(rel@, i as int));
            return false;
        }
        i = i + 1;
    }
    assert(forall|j: int| !is_traversal_at(rel@, j) || j < i);
    true
}

/// The route's root marker alone stands for the empty relative path.
pub open spec fn spec_normalize_rel(s: Seq<char>) -> Seq<char> {
    if s == seq!['/'] {
        Seq::<char>::empty()
    } else {
        s
    }
}

/// Treats a relative path equal to the route's root marker as empty and
/// leaves every other path unchanged.
pub fn normalize_rel_path(rel: String) -> (r: String)
    ensures
        r@ == spec_normalize_rel(rel@),
{
    let n = rel.as_str().unicode_len();
    if n == 1 && rel.as_str().get_char(0) == '/' {
        proof {
            assert(rel@ =~= seq!['/']);
        }
        String::new()
    } else {
        proof {
            if rel@ == seq!['/'] {
                assert(rel@.len() == 1);
                assert(rel@[0] == '/');
            }
        }
        rel
    }
}

/// Joining a base path and a child path inserts a separator unless the base
/// already ends with one.
pub open spec fn spec_join(base: Seq<char>, child: Seq<char>) -> Seq<char> {
    if base.len() > 0 && base[base.len() - 1] == '/' {
        base + child
    } else {
        base + seq!['/'] + child
    }
}

/// Appends a child path to a base path, inserting a separator where the base
/// does not already end with one.
pub fn join_path(base: &str, child: &str) -> (r: String)
    ensures
        r@ == spec_join(base@, child@),
{
    let n = base.unicode_len();
    let mut r = String::from_str(base);
    if n == 0 || base.get_char(n - 1) != '/' {
        r.append("/");
        proof {
            reveal_strlit("/");
            assert("/"@ =~= seq!['/']);
        }
    }
    r.append(child);
    r
}

/// Which of the two fixed content trees of a home directory a route serves:
/// the public tree, or the private tree that only an authorized request
/// reaches.
#[derive(Clone, Copy, PartialEq, Eq, Structural)]
pub enum ContentTree {
    Public,
    Private,
}

/// The fixed sub-root directory name of a content tree, with its trailing
/// separator, as appended to a resolved home directory.
pub open spec fn spec_sub_root(tree: ContentTree) -> Seq<char> {
    match tree {
        ContentTree::Public => "public_html/"@,
        ContentTree::Private => ".html_pages/"@,
    }
}

/// Returns the fixed sub-root directory name of a content tree.
pub fn sub_root(tree: ContentTree) -> (r: &'static str)
    ensures
        r@ == spec_sub_root(tree),
{
    match tree {
        ContentTree::Public => "public_html/",
        ContentTree::Private => ".html_pages/",
    }
}

/// The absolute served path: home directory, then the fixed sub-root, then
/// the sanitized relative path.
pub open spec fn spec_served_path(home: Seq<char>, tree: ContentTree, rel: Seq<char>) -> Seq<
    char,
> {
    spec_join(home, spec_sub_root(tree)) + rel
}

/// Composes the absolute served path from a home directory, the content
/// tree's fixed sub-root and a sanitized relative path.
pub fn served_path(home: &str, tree: ContentTree, rel: &str) -> (r: String)
    ensures
        r@ == spec_served_path(home@, tree, rel@),
{
    let mut r = join_path(home, sub_root(tree));
    r.append(rel);
    r
}

/// The logical request path of a route: the route prefix, the username
/// segment, a separator, and the relative path.
pub open spec fn spec_request_path(tree: ContentTree, uid: Seq<char>, rel: Seq<char>) -> Seq<
    char,
> {
    match tree {
        ContentTree::Public => "/~"@ + uid + "/"@ + rel,
        ContentTree::Private => "/priv/~"@ + uid + "/"@ + rel,
    }
}

/// Builds the logical request path for a username and relative path on a
/// route, preserving the username segment.
pub fn request_path(tree: ContentTree, uid: &str, rel: &str) -> (r: String)
    ensures
        r@ == spec_request_path(tree, uid@, rel@),
{
    let mut r = match tree {
        ContentTree::Public => String::from_str("/~"),
        ContentTree::Private => String::from_str("/priv/~"),
    };
    r.append(uid);
    r.append("/");
    r.append(rel);
    r
}

/// The shape of the response handed back to the transport. A file response
/// carries the path whose bytes are to be streamed; a listing response
/// carries the rendered document.
#[derive(PartialEq, Eq)]
pub enum Response {
    NotFound,
    ServiceError,
    Redirect { location: String },
    SendFile { path: String },
    ListingPage { body: String },
}

/// Mathematical model of a response, with every carried string as a
/// character sequence.
pub enum ResponseModel {
    NotFound,
    ServiceError,
    Redirect(Seq<char>),
    SendFile(Seq<char>),
    ListingPage(Seq<char>),
}

impl View for Response {
    type V = ResponseModel;

    open spec fn view(&self) -> ResponseModel {
        match self {
            Response::NotFound => ResponseModel::NotFound,
            Response::ServiceError => ResponseModel::ServiceError,
            Response::Redirect { location } => ResponseModel::Redirect(location@),
            Response::SendFile { path } => ResponseModel::SendFile(path@),
            Response::ListingPage { body } => ResponseModel::ListingPage(body@),
        }
    }
}

/// The HTTP status code of a response shape: success for file bytes and
/// listings, a permanent redirect for the separator-appending redirect, and
/// the two failure codes.
pub open spec fn spec_status(m: ResponseModel) -> int {
    match m {
        ResponseModel::NotFound => 404,
        ResponseModel::ServiceError => 500,
        ResponseModel::Redirect(loc) => 301,
        ResponseModel::SendFile(path) => 200,
        ResponseModel::ListingPage(body) => 200,
    }
}

impl Response {
    /// Returns the HTTP status code this response is transmitted with.
    pub fn status_code(&self) -> (s: u16)
        ensures
            s == spec_status(self@),
    {
        match self {
            Response::NotFound => 404,
            Response::ServiceError => 500,
            Response::Redirect { location } => 301,
            Response::SendFile { path } => 200,
            Response::ListingPage { body } => 200,
        }
    }
}

/// The failure taxonomy of the core: directory-service transport failure,
/// unresolved identity, absent filesystem entry, any other filesystem
/// failure, and listing-generation failure.
#[derive(Clone, Copy, PartialEq, Eq, Structural)]
pub enum ServeFailure {
    DirectoryUnavailable,
    IdentityNotFound,
    PathNotFound,
    PathAccessError,
    RenderError,
}

/// How each failure terminates in a response: unresolved identities and
/// absent paths are not found; every transport, filesystem or rendering
/// failure is a generic internal error whose detail is never echoed to the
/// client.
pub open spec fn spec_response_for_failure(f: ServeFailure) -> ResponseModel {
    match f {
        ServeFailure::DirectoryUnavailable => ResponseModel::ServiceError,
        ServeFailure::IdentityNotFound => ResponseModel::NotFound,
        ServeFailure::PathNotFound => ResponseModel::NotFound,
        ServeFailure::PathAccessError => ResponseModel::ServiceError,
        ServeFailure::RenderError => ResponseModel::ServiceError,
    }
}

/// Maps a failure to the response it terminates in; no failure escapes as a
/// crash or a raw error text.
pub fn response_for_failure(f: ServeFailure) -> (r: Response)
    ensures
        r@ == spec_response_for_failure(f),
{
    match f {
        ServeFailure::DirectoryUnavailable => Response::ServiceError,
        ServeFailure::IdentityNotFound => Response::NotFound,
        ServeFailure::PathNotFound => Response::NotFound,
        ServeFailure::PathAccessError => Response::ServiceError,
        ServeFailure::RenderError => Response::ServiceError,
    }
}

/// What a metadata inspection of the served path found: no entry, an entry
/// the process cannot inspect, a regular file, or a directory together with
/// whether it contains an index document.
#[derive(Clone, Copy, PartialEq, Eq, Structural)]
pub enum FsNode {
    Missing,
    Inaccessible,
    File,
    Dir { has_index: bool },
}

/// What the router does with a request before touching the filesystem:
/// either reply at once, or inspect the metadata of the composed served
/// path.
#[derive(PartialEq, Eq)]
pub enum RequestPlan {
    Reply(Response),
    Stat { full_path: String, rel: String },
}

/// Mathematical model of a request plan.
pub enum PlanModel {
    Reply(ResponseModel),
    Stat { full_path: Seq<char>, rel: Seq<char> },
}

impl View for RequestPlan {
    type V = PlanModel;

    open spec fn view(&self) -> PlanModel {
        match self {
            RequestPlan::Reply(resp) => PlanModel::Reply(resp@),
            RequestPlan::Stat { full_path, rel } => PlanModel::Stat {
                full_path: full_path@,
                rel: rel@,
            },
        }
    }
}

/// The pre-filesystem policy: normalize the root marker, fail closed on an
/// unresolved identity, and reject a relative path that breaks containment —
/// all before any filesystem access. Only a resolved identity together with
/// a contained path reaches a metadata inspection.
pub open spec fn spec_plan(tree: ContentTree, home: Option<Seq<char>>, rel_raw: Seq<char>) -> PlanModel {
    let rel = spec_normalize_rel(rel_raw);
    match home {
        None => PlanModel::Reply(ResponseModel::NotFound),
        Some(h) => {
            if !rel_path_allowed(rel) {
                PlanModel::Reply(ResponseModel::NotFound)
            } else {
                PlanModel::Stat { full_path: spec_served_path(h, tree, rel), rel }
            }
        },
    }
}

/// Plans a request from the resolver's answer and the raw relative path:
/// replies not-found when the identity is unresolved or the path breaks
/// containment, and otherwise composes the served path to be inspected.
pub fn plan_request(tree: ContentTree, resolved: Option<String>, rel_path: String) -> (p:
    RequestPlan)
    ensures
        p@ == spec_plan(tree, resolved.deep_view(), rel_path@),
{
    let rel = normalize_rel_path(rel_path);
    match resolved {
        None => RequestPlan::Reply(Response::NotFound),
        Some(home) => {
            if !check_rel_path(rel.as_str()) {
                RequestPlan::Reply(Response::NotFound)
            } else {
                let full_path = served_path(home.as_str(), tree, rel.as_str());
                RequestPlan::Stat { full_path, rel }
            }
        },
    }
}

/// What the router does once the filesystem has been inspected: either a
/// final response, or an enumeration of the directory's immediate children
/// to be rendered as a listing.
#[derive(PartialEq, Eq)]
pub enum Decision {
    Respond(Response),
    ListDir,
}

/// Mathematical model of a post-inspection decision.
pub enum DecisionModel {
    Respond(ResponseModel),
    ListDir,
}

impl View for Decision {
    type V = DecisionModel;

    open spec fn view(&self) -> DecisionModel {
        match self {
            Decision::Respond(resp) => DecisionModel::Respond(resp@),
            Decision::ListDir => DecisionModel::ListDir,
        }
    }
}

/// The response-shape policy on an inspected node, in order: an absent entry
/// is not found and any other metadata failure an internal error; a regular
/// file is streamed; a directory requested without a trailing separator (and
/// with a non-empty relative path) redirects to the same logical path with
/// the separator appended; a directory with an index document streams that
/// document; any other directory is listed.
pub open spec fn spec_decide(
    tree: ContentTree,
    uid: Seq<char>,
    rel: Seq<char>,
    full: Seq<char>,
    node: FsNode,
) -> DecisionModel {
    match node {
        FsNode::Missing => DecisionModel::Respond(ResponseModel::NotFound),
        FsNode::Inaccessible => DecisionModel::Respond(ResponseModel::ServiceError),
        FsNode::File => DecisionModel::Respond(ResponseModel::SendFile(full)),
        FsNode::Dir { has_index } => {
            if rel.len() > 0 && rel[rel.len() - 1] != '/' {
                DecisionModel::Respond(
                    ResponseModel::Redirect(spec_request_path(tree, uid, rel) + seq!['/']),
                )
            } else if has_index {
                DecisionModel::Respond(ResponseModel::SendFile(spec_join(full, "index.html"@)))
            } else {
                DecisionModel::ListDir
            }
        },
    }
}

/// Decides the response shape for the inspected served path, following the
/// policy of `spec_decide`.
pub fn decide_response(
    tree: ContentTree,
    uid: &str,
    rel: &str,
    full_path: &str,
    node: FsNode,
) -> (d: Decision)
    ensures
        d@ == spec_decide(tree, uid@, rel@, full_path@, node),
{
    match node {
        FsNode::Missing => Decision::Respond(Response::NotFound),
        FsNode::Inaccessible => Decision::Respond(Response::ServiceError),
        FsNode::File => Decision::Respond(
            Response::SendFile { path: String::from_str(full_path) },
        ),
        FsNode::Dir { has_index } => {
            let n = rel.unicode_len();
            if n > 0 && rel.get_char(n - 1) != '/' {
                let mut location = request_path(tree, uid, rel);
                location.append("/");
                proof {
                    reveal_strlit("/");
                    assert("/"@ =~= seq!['/']);
                }
                Decision::Respond(Response::Redirect { location })
            } else if has_index {
                Decision::Respond(Response::SendFile { path: join_path(full_path, "index.html") })
            } else {
                Decision::ListDir
            }
        },
    }
}

/// Containment law: a request whose normalized relative path carries a
/// parent-directory traversal segment or an absolute override never reaches
/// a filesystem inspection — its plan is an immediate not-found reply,
/// whatever the resolver answered.
pub proof fn lemma_rejected_before_filesystem(
    tree: ContentTree,
    home: Option<Seq<char>>,
    rel_raw: Seq<char>,
)
    requires
        !rel_path_allowed(spec_normalize_rel(rel_raw)),
    ensures
        spec_plan(tree, home, rel_raw) == PlanModel::Reply(ResponseModel::NotFound),
{
}

/// Idempotence law: the decision is a function of the request and the
/// inspected node alone, so repeated identical requests that observe the
/// same filesystem node are answered identically.
pub proof fn lemma_decision_deterministic(
    tree: ContentTree,
    uid: Seq<char>,
    rel: Seq<char>,
    full: Seq<char>,
    node: FsNode,
    d1: DecisionModel,
    d2: DecisionModel,
)
    requires
        d1 == spec_decide(tree, uid, rel, full, node),
        d2 == spec_decide(tree, uid, rel, full, node),
    ensures
        d1 == d2,
{
}

/// Redirect law: a directory requested with a non-empty relative path and no
/// trailing separator is answered with a permanent redirect whose target is
/// exactly the logical request path with a separator appended.
pub proof fn lemma_redirect_appends_separator(
    tree: ContentTree,
    uid: Seq<char>,
    rel: Seq<char>,
    full: Seq<char>,
    has_index: bool,
)
    requires
        rel.len() > 0,
        rel[rel.len() - 1] != '/',
    ensures
        spec_decide(tree, uid, rel, full, FsNode::Dir { has_index })
            == DecisionModel::Respond(
            ResponseModel::Redirect(spec_request_path(tree, uid, rel) + seq!['/']),
        ),
{
}

/// Index precedence law: a directory that holds an index document and is not
/// redirected is answered with that document, never with a listing, whatever
/// else the directory holds — the decision never inspects the other entries.
pub proof fn lemma_index_precedence(
    tree: ContentTree,
    uid: Seq<char>,
    rel: Seq<char>,
    full: Seq<char>,
)
    requires
        rel.len() == 0 || rel[rel.len() - 1] == '/',
    ensures
        spec_decide(tree, uid, rel, full, FsNode::Dir { has_index: true })
            == DecisionModel::Respond(ResponseModel::SendFile(spec_join(full, "index.html"@))),
{
}

} // verus!
