use chan_downloader::get_image_links;
use chan_downloader::unique_links;

#[test]
fn it_gets_image_links() {
    let (links, number_of_links) = get_image_links("
            <a href=\"//i.4cdn.org/wg/1489266570954.jpg\" target=\"_blank\">stickyop.jpg</a>
            <a href=\"//i.4cdn.org/wg/1489266570954.jpg\" target=\"_blank\">stickyop.jpg</a>
        ");
    assert_eq!(number_of_links, 1);
    for link in links.iter().step_by(2) {
        assert_eq!(link.raw_url, "//i.4cdn.org/wg/1489266570954.jpg");
        assert_eq!(link.filename, "1489266570954.jpg");
    }
}

#[test]
fn extract_doubled_link_counts_once() {
    let page = "<a href=\"//i.4cdn.org/wg/1489266570954.jpg\">stickyop.jpg</a>\
                <a href=\"//i.4cdn.org/wg/1489266570954.jpg\">stickyop.jpg</a>";
    let (links, count) = get_image_links(page);
    assert_eq!(links.len(), 2);
    assert_eq!(count, 1);
    let uniques = unique_links(&links);
    assert_eq!(uniques.len(), 1);
    assert_eq!(uniques[0].raw_url, "//i.4cdn.org/wg/1489266570954.jpg");
    assert_eq!(uniques[0].filename, "1489266570954.jpg");
}

#[test]
fn extract_empty_page_is_not_an_error() {
    let (links, count) = get_image_links("");
    assert_eq!(links.len(), 0);
    assert_eq!(count, 0);
}

#[test]
fn extract_no_matches_is_not_an_error() {
    let (links, count) = get_image_links("<html><body>no media here</body></html>");
    assert_eq!(links.len(), 0);
    assert_eq!(count, 0);
}

#[test]
fn extract_twice_yields_identical_matches() {
    let page = "pre //is2.4chan.org/g/1111.webm mid //i.4cdn.org/wg/2222.png post";
    let (first, first_count) = get_image_links(page);
    let (second, second_count) = get_image_links(page);
    assert_eq!(first, second);
    assert_eq!(first_count, second_count);
}

#[test]
fn extract_recognizes_host_and_extension_variants() {
    let page = "<a href=\"//is2.4chan.org/g/1234567890.webm\">a</a>\
                <a href=\"//i.4cdn.org/wg_a/777.gif\">b</a>\
                <a href=\"//is.4cdn.org/a/1.png\">c</a>";
    let (links, count) = get_image_links(page);
    assert_eq!(links.len(), 3);
    assert_eq!(count, 1);
    assert_eq!(links[0].raw_url, "//is2.4chan.org/g/1234567890.webm");
    assert_eq!(links[0].filename, "1234567890.webm");
    assert_eq!(links[1].raw_url, "//i.4cdn.org/wg_a/777.gif");
    assert_eq!(links[1].filename, "777.gif");
    assert_eq!(links[2].raw_url, "//is.4cdn.org/a/1.png");
    assert_eq!(links[2].filename, "1.png");
}

#[test]
fn extract_refuses_near_misses() {
    let page = "//i.4cdn.org/wg/letters.jpg //i.5cdn.org/wg/123.jpg \
                //i.4cdn.org/wg/123.tiff //j.4cdn.org/wg/123.jpg \
                //i.4cdn.org/123.jpg";
    let (links, count) = get_image_links(page);
    assert_eq!(links.len(), 0);
    assert_eq!(count, 0);
}

#[test]
fn extract_single_occurrence_reports_no_pair() {
    let page = "<a href=\"//i.4cdn.org/wg/42.jpg\">only once</a>";
    let (links, count) = get_image_links(page);
    assert_eq!(links.len(), 1);
    assert_eq!(count, 0);
    assert_eq!(links[0].raw_url, "//i.4cdn.org/wg/42.jpg");
}
