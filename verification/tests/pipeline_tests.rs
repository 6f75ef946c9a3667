use chan_downloader::collect_outcomes;
use chan_downloader::destination_path;
use chan_downloader::https_url;
use chan_downloader::unique_links;
use chan_downloader::DownloadError;
use chan_downloader::DownloadOutcome;
use chan_downloader::MediaLink;

fn link(url: &str, name: &str) -> MediaLink {
    MediaLink { raw_url: String::from(url), filename: String::from(name) }
}

#[test]
fn unique_links_steps_by_two() {
    let links = vec![
        link("//i.4cdn.org/wg/1.jpg", "1.jpg"),
        link("//i.4cdn.org/wg/1.jpg", "1.jpg"),
        link("//i.4cdn.org/wg/2.png", "2.png"),
        link("//i.4cdn.org/wg/2.png", "2.png"),
    ];
    let uniques = unique_links(&links);
    assert_eq!(uniques.len(), 2);
    assert_eq!(uniques[0].filename, "1.jpg");
    assert_eq!(uniques[1].filename, "2.png");
}

#[test]
fn unique_links_of_odd_batch_keeps_the_last() {
    let links = vec![
        link("//i.4cdn.org/wg/1.jpg", "1.jpg"),
        link("//i.4cdn.org/wg/1.jpg", "1.jpg"),
        link("//i.4cdn.org/wg/3.gif", "3.gif"),
    ];
    let uniques = unique_links(&links);
    assert_eq!(uniques.len(), 2);
    assert_eq!(uniques[0].filename, "1.jpg");
    assert_eq!(uniques[1].filename, "3.gif");
}

#[test]
fn https_url_prefixes_the_scheme() {
    assert_eq!(https_url("//i.4cdn.org/wg/1.jpg"), "https://i.4cdn.org/wg/1.jpg");
}

#[test]
fn destination_path_joins_directory_and_filename() {
    assert_eq!(destination_path("out/wg/6872254", "1.jpg"), "out/wg/6872254/1.jpg");
}

#[test]
fn collect_outcomes_all_success() {
    let links = vec![link("//i.4cdn.org/wg/1.jpg", "1.jpg"), link("//i.4cdn.org/wg/2.png", "2.png")];
    let events: Vec<Result<(), DownloadError>> = vec![Ok(()), Ok(())];
    let outcomes = collect_outcomes(&links, "out", &events);
    assert_eq!(outcomes.len(), 2);
    assert_eq!(
        outcomes[0],
        DownloadOutcome::Saved {
            url: String::from("//i.4cdn.org/wg/1.jpg"),
            destination_path: String::from("out/1.jpg"),
        }
    );
    assert_eq!(
        outcomes[1],
        DownloadOutcome::Saved {
            url: String::from("//i.4cdn.org/wg/2.png"),
            destination_path: String::from("out/2.png"),
        }
    );
}

#[test]
fn collect_outcomes_partial_failure_fails_one_link_only() {
    let links = vec![
        link("//i.4cdn.org/wg/1.jpg", "1.jpg"),
        link("//i.4cdn.org/wg/2.png", "2.png"),
        link("//i.4cdn.org/wg/3.gif", "3.gif"),
    ];
    let events: Vec<Result<(), DownloadError>> =
        vec![Ok(()), Err(DownloadError::HttpStatusError(404)), Ok(())];
    let outcomes = collect_outcomes(&links, "out", &events);
    assert_eq!(outcomes.len(), 3);
    let failed: Vec<usize> = outcomes
        .iter()
        .enumerate()
        .filter(|(_, oc)| matches!(oc, DownloadOutcome::Failed { .. }))
        .map(|(i, _)| i)
        .collect();
    assert_eq!(failed, vec![1]);
    assert_eq!(
        outcomes[1],
        DownloadOutcome::Failed {
            url: String::from("//i.4cdn.org/wg/2.png"),
            error: DownloadError::HttpStatusError(404),
        }
    );
    assert!(matches!(outcomes[0], DownloadOutcome::Saved { .. }));
    assert!(matches!(outcomes[2], DownloadOutcome::Saved { .. }));
}

#[test]
fn collect_outcomes_carries_each_error_kind() {
    let links = vec![
        link("//i.4cdn.org/wg/1.jpg", "1.jpg"),
        link("//i.4cdn.org/wg/2.png", "2.png"),
    ];
    let events: Vec<Result<(), DownloadError>> =
        vec![Err(DownloadError::TransportError), Err(DownloadError::IoError)];
    let outcomes = collect_outcomes(&links, "out", &events);
    assert_eq!(
        outcomes[0],
        DownloadOutcome::Failed {
            url: String::from("//i.4cdn.org/wg/1.jpg"),
            error: DownloadError::TransportError,
        }
    );
    assert_eq!(
        outcomes[1],
        DownloadOutcome::Failed {
            url: String::from("//i.4cdn.org/wg/2.png"),
            error: DownloadError::IoError,
        }
    );
}
