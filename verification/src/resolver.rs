//! Directory-service resolution: the fail-closed rule that maps the identity
//! records matching a username to at most one home-directory path, and the
//! helpers that turn discovered service records into endpoint URLs and pick
//! one endpoint to connect to.

use vstd::prelude::*;
use rand::seq::SliceRandom;
use rand::SeedableRng;

verus! {

/// What resolution yields once the directory service has answered with the
/// home-directory values of the matching identity records: the single record's
/// path when exactly one record matched, nothing otherwise (zero and several
/// matches are indistinguishable to the caller — fail closed).
pub open spec fn spec_resolved_home(matches: Seq<Seq<char>>) -> Option<Seq<char>> {
    if matches.len() == 1 {
        Some(matches[0])
    } else {
        None
    }
}

/// Fail-closed resolution rule: exactly one matching identity record yields
/// that record's home-directory path; zero or several yield none.
pub fn resolve_from_matches(matches: &Vec<String>) -> (r: Option<String>)
    ensures
        r.deep_view() == spec_resolved_home(matches.deep_view()),
{
    if matches.len() == 1 {
        Some(matches[0].clone())
    } else {
        None
    }
}

/// A service-record target with its trailing dots removed: a fully qualified
/// name loses its root dot.
pub open spec fn spec_trim_trailing_dots(s: Seq<char>) -> Seq<char>
    decreases s.len(),
{
    if s.len() > 0 && s.last() == '.' {
        spec_trim_trailing_dots(s.drop_last())
    } else {
        s
    }
}

/// The endpoint URL formed from a discovered service-record target: the
/// secure-transport scheme, then the target without its trailing dots.
pub open spec fn spec_endpoint_url(target: Seq<char>) -> Seq<char> {
    "ldaps://"@ + spec_trim_trailing_dots(target)
}

/// Forms the secure endpoint URL for one discovered service-record target.
pub fn endpoint_url(target: &str) -> (r: String)
    ensures
        r@ == spec_endpoint_url(target@),
{
    let n = target.unicode_len();
    let mut end = n;
    proof {
        assert(target@.take(n as int) =~= target@);
    }
    while end > 0 && target.get_char(end - 1) == '.'
        invariant
            end <= n,
            n == target@.len(),
            spec_trim_trailing_dots(target@) == spec_trim_trailing_dots(
                target@.take(end as int),
            ),
        decreases end,
    {
        proof {
            assert(target@.take(end as int).last() == target@[end - 1]);
            assert(target@.take(end as int).drop_last() =~= target@.take(end as int - 1));
        }
        end = end - 1;
    }
    proof {
        if end > 0 {
            assert(target@.take(end as int).last() == target@[end - 1]);
        }
        assert(spec_trim_trailing_dots(target@.take(end as int)) == target@.take(end as int));
    }
    let trimmed = target.substring_char(0, end);
    proof {
        assert(trimmed@ =~= target@.take(end as int));
    }
    let mut r = String::from_str("ldaps://");
    r.append(trimmed);
    r
}

/// The endpoint URLs of a sequence of service-record targets, in discovery
/// order.
pub open spec fn spec_endpoint_urls(targets: Seq<Seq<char>>) -> Seq<Seq<char>> {
    Seq::new(targets.len(), |i: int| spec_endpoint_url(targets[i]))
}

/// Forms the endpoint URLs for all discovered service-record targets, in
/// order.
pub fn endpoint_urls(targets: &Vec<String>) -> (r: Vec<String>)
    ensures
        r.deep_view() == spec_endpoint_urls(targets.deep_view()),
{
    let ghost all = spec_endpoint_urls(targets.deep_view());
    let mut r: Vec<String> = Vec::new();
    proof {
        assert(r.deep_view() =~= all.take(0));
    }
    let mut i: usize = 0;
    while i < targets.len()
        invariant
            i <= targets.len(),
            all == spec_endpoint_urls(targets.deep_view()),
            targets@.len() == all.len(),
            r.deep_view() == all.take(i as int),
        decreases targets.len() - i,
    {
        let u = endpoint_url(targets[i].as_str());
        proof {
            assert(targets.deep_view()[i as int] == targets@[i as int]@);
            assert(u@ == all[i as int]);
        }
        let ghost prevv = r@;
        let ghost prevdv = r.deep_view();
        r.push(u);
        proof {
            assert(prevdv.len() == prevv.len());
            assert(prevv.len() == i as int);
            assert(r@.len() == i as int + 1);
            assert forall|k: int| 0 <= k < i as int + 1 implies r.deep_view()[k] == all.take(
                i as int + 1,
            )[k] by {
                assert(r.deep_view()[k] == r@[k]@);
                if k < i as int {
                    assert(r@[k] == prevv[k]);
                    assert(prevdv[k] == prevv[k]@);
                }
            }
            assert(r.deep_view() =~= all.take(i as int + 1));
        }
        i = i + 1;
    }
    proof {
        assert(all.take(targets@.len() as int) =~= all);
    }
    r
}

/// Relies on rand's `SliceRandom::choose`, seeded from entropy: for a
/// non-empty slice it returns one of the slice's elements, for an empty
/// slice none. Which element comes back is random, so the contract says of a
/// non-empty slice only that the result is one of its elements.
#[verifier::external_body]
fn choose_server(servers: &Vec<String>) -> (r: Option<&String>)
    ensures
        r is Some <==> servers@.len() > 0,
        r matches Some(s) ==> exists|i: int| 0 <= i < servers@.len() && s@ == servers@[i]@,
{
    servers.as_slice().choose(&mut rand::rngs::StdRng::from_entropy())
}

/// Picks the directory-service endpoint to connect to: one of the discovered
/// candidates, at random, when any were discovered; none otherwise.
pub fn select_endpoint(servers: &Vec<String>) -> (r: Option<String>)
    ensures
        r is Some <==> servers@.len() > 0,
        r matches Some(s) ==> exists|i: int| 0 <= i < servers@.len() && s@ == servers@[i]@,
{
    match choose_server(servers) {
        Some(s) => Some(s.clone()),
        None => None,
    }
}

} // verus!
