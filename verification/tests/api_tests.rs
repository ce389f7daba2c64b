use meow::api::{exact_search_url, loose_search_url};

#[test]
fn search_urls() {
    assert_eq!(loose_search_url("pacman"), "https://archlinux.org/packages/search/json/?q=pacman");
    assert_eq!(exact_search_url("pacman"), "https://archlinux.org/packages/search/json/?name=pacman");
    assert_eq!(exact_search_url(""), "https://archlinux.org/packages/search/json/?name=");
}
