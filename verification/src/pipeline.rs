//! The decisions of the download pipeline, apart from any network or file
//! work: choosing the distinct links out of the doubled match sequence,
//! building fetch URLs and destination paths, and pairing each attempted
//! link with its outcome. The surrounding program performs the fetches and
//! writes and hands the per-link results back as plain events.

use vstd::prelude::*;
use vstd::string::StringExecFns;
use crate::errors::DownloadError;
use crate::extract::MediaLink;

verus! {

/// What became of one attempted link: the file was saved at the destination
/// path, or the link failed with the error carried here. Either way the
/// offending URL is kept.
#[derive(Debug, PartialEq, Eq)]
pub enum DownloadOutcome {
    Saved { url: String, destination_path: String },
    Failed { url: String, error: DownloadError },
}

/// Every second raw occurrence of the doubled match sequence: the page
/// holds each link twice, so the links at even indices are the distinct
/// ones, in their order of first appearance.
pub fn unique_links(links: &Vec<MediaLink>) -> (r: Vec<MediaLink>)
    ensures
        r@.len() == (links@.len() + 1) / 2,
        forall|k: int|
            0 <= k < r@.len() ==> r@[k].raw_url@ == links@[2 * k].raw_url@ && r@[k].filename@
                == links@[2 * k].filename@,
{
    let mut out: Vec<MediaLink> = Vec::new();
    let mut i: usize = 0;
    while i < links.len()
        invariant
            i <= links@.len(),
            i % 2 == 0 || i == links@.len(),
            out@.len() == (i + 1) / 2,
            forall|k: int|
                0 <= k < out@.len() ==> 2 * k < links@.len() && out@[k].raw_url@ == links@[2
                    * k].raw_url@ && out@[k].filename@ == links@[2 * k].filename@,
        decreases links@.len() - i,
    {
        let link = MediaLink {
            raw_url: links[i].raw_url.clone(),
            filename: links[i].filename.clone(),
        };
        out.push(link);
        if links.len() - i >= 2 {
            i += 2;
        } else {
            i += 1;
        }
    }
    out
}

/// The URL to fetch: the page's protocol-relative URL under the `https`
/// scheme.
pub fn https_url(raw_url: &str) -> (r: String)
    ensures
        r@ == "https:"@ + raw_url@,
{
    let mut out = String::from_str("https:");
    out.append(raw_url);
    out
}

/// The path a link's file is written to: the output directory, a `/`, and
/// the filename taken from the link.
pub fn destination_path(output_dir: &str, filename: &str) -> (r: String)
    ensures
        r@ == output_dir@ + seq!['/'] + filename@,
{
    proof {
        reveal_strlit("/");
    }
    let mut out = String::from_str(output_dir);
    out.append("/");
    out.append(filename);
    out
}

/// The outcome owed to one link, given the event its download produced: a
/// successful fetch-and-save yields `Saved` with the link's destination
/// path; any failure yields `Failed` carrying the link's URL and the error.
pub open spec fn outcome_for(
    link: MediaLink,
    dir: Seq<char>,
    ev: Result<(), DownloadError>,
    oc: DownloadOutcome,
) -> bool {
    match ev {
        Ok(_) => oc matches DownloadOutcome::Saved { url, destination_path } && url@
            == link.raw_url@ && destination_path@ == dir + seq!['/'] + link.filename@,
        Err(e) => oc matches DownloadOutcome::Failed { url, error } && url@ == link.raw_url@
            && error == e,
    }
}

/// Each link of the batch is paired, in link order, with the outcome its
/// event owes it.
pub open spec fn outcomes_match(
    links: Seq<MediaLink>,
    dir: Seq<char>,
    events: Seq<Result<(), DownloadError>>,
    outcomes: Seq<DownloadOutcome>,
) -> bool {
    &&& outcomes.len() == links.len()
    &&& forall|k: int| 0 <= k < links.len() ==> outcome_for(links[k], dir, events[k], outcomes[k])
}

/// Pairs every link of a batch with the outcome of its download attempt.
/// One failed link fails that link's outcome alone; the batch is never cut
/// short.
pub fn collect_outcomes(
    links: &Vec<MediaLink>,
    output_dir: &str,
    events: &Vec<Result<(), DownloadError>>,
) -> (r: Vec<DownloadOutcome>)
    requires
        events@.len() == links@.len(),
    ensures
        outcomes_match(links@, output_dir@, events@, r@),
{
    let mut out: Vec<DownloadOutcome> = Vec::new();
    let mut i: usize = 0;
    while i < links.len()
        invariant
            events@.len() == links@.len(),
            i <= links@.len(),
            out@.len() == i,
            forall|k: int|
                0 <= k < i ==> outcome_for(links@[k], output_dir@, events@[k], out@[k]),
        decreases links@.len() - i,
    {
        let url = links[i].raw_url.clone();
        let ev = events[i];
        match ev {
            Ok(_) => {
                let dest = destination_path(output_dir, &links[i].filename);
                out.push(DownloadOutcome::Saved { url, destination_path: dest });
            },
            Err(e) => {
                out.push(DownloadOutcome::Failed { url, error: e });
            },
        }
        i += 1;
    }
    out
}

/// In a batch where exactly one link's event failed, the outcomes pair each
/// link in order, exactly that link's outcome is `Failed`, and every other
/// link's outcome is `Saved`.
pub proof fn lemma_partial_failure(
    links: Seq<MediaLink>,
    dir: Seq<char>,
    events: Seq<Result<(), DownloadError>>,
    outcomes: Seq<DownloadOutcome>,
    bad: int,
)
    requires
        events.len() == links.len(),
        outcomes_match(links, dir, events, outcomes),
        0 <= bad < events.len(),
        events[bad] is Err,
        forall|j: int| 0 <= j < events.len() && j != bad ==> events[j] is Ok,
    ensures
        outcomes.len() == links.len(),
        outcomes[bad] is Failed,
        forall|j: int| 0 <= j < outcomes.len() && j != bad ==> outcomes[j] is Saved,
{
    assert(outcome_for(links[bad], dir, events[bad], outcomes[bad]));
    assert forall|j: int| 0 <= j < outcomes.len() && j != bad implies outcomes[j] is Saved by {
        assert(outcome_for(links[j], dir, events[j], outcomes[j]));
    }
}

} // verus!
