use chan_downloader::get_thread_infos;
use chan_downloader::DownloadError;

#[test]
fn it_gets_thread_infos() {
    let url = "https://boards.4chan.org/wg/thread/6872254";
    let t = get_thread_infos(url).unwrap();
    assert_eq!(t.board, "wg");
    assert_eq!(t.thread_id, "6872254");
}

#[test]
fn thread_infos_strips_anchor() {
    let url = "https://boards.4chan.org/wg/thread/6872254#p6872300";
    let t = get_thread_infos(url).unwrap();
    assert_eq!(t.board, "wg");
    assert_eq!(t.thread_id, "6872254");
}

#[test]
fn thread_infos_takes_exact_segments() {
    let url = "https://boards.4chan.org/g/thread/12345/extra";
    let t = get_thread_infos(url).unwrap();
    assert_eq!(t.board, "g");
    assert_eq!(t.thread_id, "12345");
}

#[test]
fn thread_infos_rejects_short_url() {
    let err = get_thread_infos("https://boards.4chan.org/wg").unwrap_err();
    assert_eq!(err, DownloadError::MalformedUrl);
}

#[test]
fn thread_infos_rejects_empty_url() {
    let err = get_thread_infos("").unwrap_err();
    assert_eq!(err, DownloadError::MalformedUrl);
}
