//! What a session serves.

use vstd::prelude::*;
use vstd::utf8::*;

use crate::asar::{CompatibilityPlan, PlannedResource};
use crate::runtime::requests::paths_view;
use crate::text::{join, separated};
use crate::text_map::TextMap;

verus! {

/// A patched script, for specifications.
pub struct ExpectedSpec {
    pub labels: Seq<char>,
    pub encoded_body: Seq<char>,
    pub required_for_ready: bool,
}

/// A patched script as it is handed to the application.
#[derive(Debug)]
pub struct ExpectedResource {
    pub labels: String,
    pub encoded_body: String,
    pub required_for_ready: bool,
}

impl View for ExpectedResource {
    type V = ExpectedSpec;

    open spec fn view(&self) -> ExpectedSpec {
        ExpectedSpec {
            labels: self.labels@,
            encoded_body: self.encoded_body@,
            required_for_ready: self.required_for_ready,
        }
    }
}

pub open spec fn expected_view(expected: TextMap<ExpectedResource>) -> Map<
    Seq<char>,
    ExpectedSpec,
> {
    expected@.map_values(|resource: ExpectedResource| resource@)
}

/// How `base64`'s standard engine encodes bytes.
pub uninterp spec fn base64_text(bytes: Seq<u8>) -> Seq<char>;

/// `base64::engine::general_purpose::STANDARD.encode`: the standard alphabet with padding.
/// It panics only where the length of its result overflows, which no slice reaches.
#[verifier::external_body]
fn encode_base64(bytes: &[u8]) -> (text: String)
    ensures
        text@ == base64_text(bytes@),
{
    base64::Engine::encode(&base64::engine::general_purpose::STANDARD, bytes)
}

/// What is served for a planned resource.
pub open spec fn served(resource: PlannedResource) -> ExpectedSpec {
    ExpectedSpec {
        labels: separated(resource.labels.in_order(), "|"@),
        encoded_body: base64_text(encode_utf8(resource.patched_content@)),
        required_for_ready: resource.required_for_ready,
    }
}

/// What is served for each file of a plan.
pub open spec fn all_served(resources: Seq<PlannedResource>) -> Map<Seq<char>, ExpectedSpec>
    decreases resources.len(),
{
    if resources.len() == 0 {
        Map::empty()
    } else {
        all_served(resources.drop_last()).insert(
            resources.last().archive_path@,
            served(resources.last()),
        )
    }
}

/// The request paths of a file.
pub open spec fn paths_to(resource: PlannedResource) -> Map<Seq<char>, Seq<char>> {
    Map::new(
        |path: Seq<char>| resource.request_paths@.contains(path),
        |path: Seq<char>| resource.archive_path@,
    )
}

/// The file that each request path of a plan asks for.
pub open spec fn all_paths(resources: Seq<PlannedResource>) -> Map<Seq<char>, Seq<char>>
    decreases resources.len(),
{
    if resources.len() == 0 {
        Map::empty()
    } else {
        all_paths(resources.drop_last()).union_prefer_right(paths_to(resources.last()))
    }
}

/// Every request path asks for a file that is served.
pub proof fn lemma_paths_lead_to_served(resources: Seq<PlannedResource>, path: Seq<char>)
    requires
        all_paths(resources).contains_key(path),
    ensures
        all_served(resources).contains_key(all_paths(resources)[path]),
    decreases resources.len(),
{
    if resources.len() > 0 {
        if !resources.last().request_paths@.contains(path) {
            lemma_paths_lead_to_served(resources.drop_last(), path);
        }
    }
}

/// What a session serves, and under which paths.
pub struct RuntimePlan {
    pub expected_resources: TextMap<ExpectedResource>,
    pub request_paths: TextMap<String>,
}

/// Adds the request paths of a file.
fn add_paths(paths: &mut TextMap<String>, resource: &PlannedResource)
    requires
        old(paths).well_formed(),
        resource.request_paths.well_formed(),
    ensures
        final(paths).well_formed(),
        paths_view(*final(paths))
            == paths_view(*old(paths)).union_prefer_right(
            paths_to(*resource),
        ),
{
    let ghost before = paths_view(*paths);
    let ghost order = resource.request_paths.in_order();
    let ghost target = resource.archive_path@;
    proof {
        resource.request_paths.lemma_in_order();
    }
    let mut k: usize = 0;
    while k < resource.request_paths.len()
        invariant
            resource.request_paths.well_formed(),
            order == resource.request_paths.in_order(),
            target == resource.archive_path@,
            k <= order.len(),
            paths.well_formed(),
            forall|path: Seq<char>| #[trigger]
                paths_view(*paths).contains_key(path) <==> (
                before.contains_key(path) || order.take(k as int).contains(path)),
            forall|path: Seq<char>|
                order.take(k as int).contains(path)
                    ==> #[trigger] paths_view(*paths)[path] == target,
            forall|path: Seq<char>|
                before.contains_key(path) && !order.take(k as int).contains(path)
                    ==> #[trigger] paths_view(*paths)[path]
                    == before[path],
        decreases order.len() - k,
    {
        let path = resource.request_paths.at(k);
        let ghost earlier = paths_view(*paths);
        let _ = paths.insert(path.to_owned(), resource.archive_path.as_str().to_owned());
        proof {
            let shorter = order.take(k as int);
            let longer = order.take(k + 1);
            assert(longer =~= shorter.push(path@));
            assert(paths_view(*paths) =~= earlier.insert(path@, target));
            assert forall|other: Seq<char>|
                longer.contains(other) <==> shorter.contains(other) || other == path@ by {
                if shorter.contains(other) {
                    let j = choose|j: int| 0 <= j < shorter.len() && shorter[j] == other;
                    assert(longer[j] == other);
                }
                if longer.contains(other) {
                    let j = choose|j: int| 0 <= j < longer.len() && longer[j] == other;
                    if j < k {
                        assert(shorter[j] == other);
                    }
                }
                assert(longer[k as int] == path@);
            }
        }
        k += 1;
    }
    proof {
        assert(order.take(k as int) =~= order);
        let expected = before.union_prefer_right(paths_to(*resource));
        let now = paths_view(*paths);
        assert forall|path: Seq<char>| now.contains_key(path) == expected.contains_key(path) by {
            assert(order.contains(path) <==> resource.request_paths@.contains(path));
        }
        assert forall|path: Seq<char>| now.contains_key(path) implies now[path]
            == expected[path] by {
            assert(order.contains(path) <==> resource.request_paths@.contains(path));
        }
        assert(now =~= expected);
    }
}

impl RuntimePlan {
    pub open spec fn well_formed(&self) -> bool {
        self.expected_resources.well_formed() && self.request_paths.well_formed()
    }

    /// What a session serves for a plan.
    pub fn from_plan(plan: &CompatibilityPlan) -> (runtime: RuntimePlan)
        requires
            plan.well_formed(),
        ensures
            runtime.well_formed(),
            expected_view(runtime.expected_resources) == all_served(plan.resources@),
            paths_view(runtime.request_paths) == all_paths(
                plan.resources@,
            ),
    {
        let ghost all = plan.resources@;
        let mut expected_resources: TextMap<ExpectedResource> = TextMap::new();
        let mut request_paths: TextMap<String> = TextMap::new();
        let mut k: usize = 0;
        proof {
            assert(expected_view(expected_resources) =~= all_served(all.take(0)));
            assert(paths_view(request_paths) =~= all_paths(all.take(0)));
        }
        while k < plan.resources.len()
            invariant
                plan.well_formed(),
                all == plan.resources@,
                k <= all.len(),
                expected_resources.well_formed(),
                request_paths.well_formed(),
                expected_view(expected_resources) == all_served(all.take(k as int)),
                paths_view(request_paths) == all_paths(
                    all.take(k as int),
                ),
            decreases all.len() - k,
        {
            let resource = &plan.resources[k];
            let ghost before = expected_view(expected_resources);
            proof {
                assert(all.take(k + 1).drop_last() =~= all.take(k as int));
                assert(all.take(k + 1).last() == *resource);
            }
            add_paths(&mut request_paths, resource);
            let expected = ExpectedResource {
                labels: join(&resource.labels.members(), "|"),
                encoded_body: encode_base64(resource.patched_content.as_str().as_bytes()),
                required_for_ready: resource.required_for_ready,
            };
            let _ = expected_resources.insert(
                resource.archive_path.as_str().to_owned(),
                expected,
            );
            assert(expected_view(expected_resources) =~= before.insert(
                resource.archive_path@,
                expected@,
            ));
            k += 1;
        }
        assert(all.take(k as int) =~= all);
        RuntimePlan { expected_resources, request_paths }
    }
}

} // verus!
