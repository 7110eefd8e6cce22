use vstd::prelude::*;
use crate::extract::{HtmlToken, LabeledUrl, get_links, extracted, links_outcome};
use crate::web_url::WebUrl;

verus! {

/// Why one unit of a crawl failed.
pub enum CrawlError {
    /// The page at `url` could not be fetched.
    Fetch { url: String, reason: String },
    /// The page at `page` holds a link whose reference is malformed.
    MalformedLink { page: String, href: String },
}

/// What one invocation of the scheduler does with its frontier.
pub enum LevelPlan {
    /// The depth bound is passed: nothing is fetched.
    ReachedMaxDepth,
    /// Every page of the frontier is fetched, and the links found on it are
    /// crawled at `child_depth`.
    Dispatch { units: Vec<LabeledUrl>, child_depth: u16 },
}

/// Decides what the scheduler does at depth `current` of at most `max`.
/// The current depth may run one past the largest `max`, hence its wider type.
pub fn plan_level(frontier: Vec<LabeledUrl>, current: u16, max: u8) -> (r: LevelPlan)
    ensures
        current > max ==> r is ReachedMaxDepth,
        current <= max ==> (r matches LevelPlan::Dispatch { units, child_depth } && units@
            == frontier@ && child_depth == current + 1),
{
    if current > max as u16 {
        LevelPlan::ReachedMaxDepth
    } else {
        LevelPlan::Dispatch { units: frontier, child_depth: current + 1 }
    }
}

/// What a unit makes of its page once the fetch has come back: the fetch's
/// failure, the failure of extraction, or the links to crawl next.
pub fn unit_step(page: &WebUrl, fetched: Result<Vec<HtmlToken>, String>) -> (r: Result<
    Vec<LabeledUrl>,
    CrawlError,
>)
    ensures
        match fetched {
            Err(reason) => r matches Err(CrawlError::Fetch { url, reason: why }) && url@ == page@
                && why@ == reason@,
            Ok(tokens) => match extracted(page@, tokens@) {
                Ok(links) => r matches Ok(v) && v@.map_values(|l: LabeledUrl| l@) == links,
                Err(href) => r matches Err(CrawlError::MalformedLink { page: p, href: h }) && p@
                    == page@ && h@ == href,
            },
        },
{
    match fetched {
        Err(reason) => Err(CrawlError::Fetch { url: String::from_str(page.as_str()), reason }),
        Ok(tokens) => match get_links(page, &tokens) {
            Ok(links) => Ok(links),
            Err(e) => Err(CrawlError::MalformedLink { page: String::from_str(page.as_str()), href: e.href }),
        },
    }
}

/// The outcome of a join: the first failure in dispatch order, or success.
pub open spec fn joined(outcomes: Seq<Result<(), CrawlError>>) -> Result<(), CrawlError>
    decreases outcomes.len(),
{
    if outcomes.len() == 0 {
        Ok(())
    } else if outcomes[0] is Err {
        outcomes[0]
    } else {
        joined(outcomes.drop_first())
    }
}

proof fn lemma_joined_skips_successes(outcomes: Seq<Result<(), CrawlError>>, i: int)
    requires
        0 <= i <= outcomes.len(),
        forall|k: int| 0 <= k < i ==> outcomes[k] is Ok,
    ensures
        joined(outcomes) == joined(outcomes.subrange(i, outcomes.len() as int)),
    decreases i,
{
    if i > 0 {
        let rest = outcomes.drop_first();
        lemma_joined_skips_successes(rest, i - 1);
        assert(rest.subrange(i - 1, rest.len() as int) =~= outcomes.subrange(i, outcomes.len() as int));
    } else {
        assert(outcomes.subrange(0, outcomes.len() as int) =~= outcomes);
    }
}

/// Joins the outcomes of the units of one level, in dispatch order.
pub fn join_outcomes(outcomes: Vec<Result<(), CrawlError>>) -> (r: Result<(), CrawlError>)
    ensures
        r == joined(outcomes@),
{
    let mut pending = outcomes;
    take_first_failure(&mut pending)
}

/// The first failure among `outcomes`, taken out of it, or success.
fn take_first_failure(outcomes: &mut Vec<Result<(), CrawlError>>) -> (r: Result<(), CrawlError>)
    ensures
        r == joined(old(outcomes)@),
{
    let ghost all = outcomes@;
    let mut i: usize = 0;
    while i < outcomes.len()
        invariant
            outcomes@ == all,
            all == old(outcomes)@,
            i <= all.len(),
            forall|k: int| 0 <= k < i ==> all[k] is Ok,
        decreases all.len() - i,
    {
        if outcomes[i].is_err() {
            proof {
                lemma_joined_skips_successes(all, i as int);
                let sub = all.subrange(i as int, all.len() as int);
                assert(sub[0] == all[i as int]);
            }
            return outcomes.remove(i);
        }
        i = i + 1;
    }
    proof {
        lemma_joined_skips_successes(all, i as int);
    }
    Ok(())
}

/// A failure in any unit of a level makes the joined outcome a failure,
/// whatever the other units returned.
pub proof fn lemma_failure_propagates(outcomes: Seq<Result<(), CrawlError>>, i: int)
    requires
        0 <= i < outcomes.len(),
        outcomes[i] is Err,
    ensures
        joined(outcomes) is Err,
    decreases i,
{
    if i > 0 && outcomes[0] is Ok {
        lemma_failure_propagates(outcomes.drop_first(), i - 1);
    }
}

/// The joined outcome is a success exactly when every unit succeeded.
pub proof fn lemma_success_needs_all(outcomes: Seq<Result<(), CrawlError>>)
    ensures
        joined(outcomes) is Ok <==> forall|k: int| 0 <= k < outcomes.len() ==> outcomes[k] is Ok,
    decreases outcomes.len(),
{
    if outcomes.len() > 0 {
        lemma_success_needs_all(outcomes.drop_first());
        if joined(outcomes) is Ok {
            assert forall|k: int| 0 <= k < outcomes.len() implies outcomes[k] is Ok by {
                if k > 0 {
                    assert(outcomes.drop_first()[k - 1] == outcomes[k]);
                }
            }
        }
        if forall|k: int| 0 <= k < outcomes.len() ==> outcomes[k] is Ok {
            assert forall|k: int| 0 <= k < outcomes.drop_first().len() implies outcomes.drop_first()[k] is Ok by {
                assert(outcomes.drop_first()[k] == outcomes[k + 1]);
            }
        }
    }
}

} // verus!
