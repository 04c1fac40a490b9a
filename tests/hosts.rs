use enough::block::BlockManager;
use enough::profile::website_hosts;

const REDDIT_REGION: &str = "\n# ENOUGH BLOCK START\n0.0.0.0 reddit.com\n::1 reddit.com\n0.0.0.0 www.reddit.com\n::1 www.reddit.com\n# ENOUGH BLOCK END\n\n";

fn strings(v: &[&str]) -> Vec<String> {
    v.iter().map(|s| s.to_string()).collect()
}

#[test]
fn remove_on_empty_content() {
    assert_eq!(BlockManager::remove_existing_blocks(""), "");
}

#[test]
fn remove_keeps_content_without_markers() {
    let c = "127.0.0.1 localhost\n::1 localhost\n";
    assert_eq!(BlockManager::remove_existing_blocks(c), c);
}

#[test]
fn remove_drops_one_region() {
    let c = "a\n# ENOUGH BLOCK START\nx\n# ENOUGH BLOCK END\nb\n";
    assert_eq!(BlockManager::remove_existing_blocks(c), "a\nb\n");
}

#[test]
fn remove_drops_repeated_regions() {
    let c = "a\n# ENOUGH BLOCK START\nx\n# ENOUGH BLOCK END\nb\n# ENOUGH BLOCK START\ny\n# ENOUGH BLOCK END\nc";
    assert_eq!(BlockManager::remove_existing_blocks(c), "a\nb\nc");
}

#[test]
fn remove_drops_unterminated_region() {
    let c = "a\n# ENOUGH BLOCK START\nx\n0.0.0.0 y\n";
    assert_eq!(BlockManager::remove_existing_blocks(c), "a\n");
}

#[test]
fn remove_drops_stray_end_marker() {
    let c = "a\n# ENOUGH BLOCK END\nb";
    assert_eq!(BlockManager::remove_existing_blocks(c), "a\nb");
}

#[test]
fn remove_keeps_crlf_line_endings() {
    let c = "a\r\n# ENOUGH BLOCK START\r\nx\r\n# ENOUGH BLOCK END\r\nb\r\n";
    assert_eq!(BlockManager::remove_existing_blocks(c), "a\r\nb\r\n");
}

#[test]
fn remove_twice_equals_remove_once() {
    let inputs = [
        "",
        "a\n\n",
        "a\n# ENOUGH BLOCK START\nx\n# ENOUGH BLOCK END\n\nb",
        "# ENOUGH BLOCK START\n# ENOUGH BLOCK START\nx\n# ENOUGH BLOCK END\ny\n# ENOUGH BLOCK END\nz\n",
    ];
    for c in inputs {
        let once = BlockManager::remove_existing_blocks(c);
        let twice = BlockManager::remove_existing_blocks(&once);
        assert_eq!(once, twice);
        assert!(!once.contains("# ENOUGH BLOCK"));
    }
}

#[test]
fn region_blocks_bare_and_www_forms() {
    let r = BlockManager::build_block_region(&strings(&["reddit.com"]));
    assert_eq!(r, REDDIT_REGION);
}

#[test]
fn region_blocks_host_without_www_prefix_too() {
    let r = BlockManager::build_block_region(&strings(&["www.youtube.com"]));
    assert_eq!(
        r,
        "\n# ENOUGH BLOCK START\n0.0.0.0 www.youtube.com\n::1 www.youtube.com\n0.0.0.0 youtube.com\n::1 youtube.com\n# ENOUGH BLOCK END\n\n"
    );
}

#[test]
fn region_without_hosts_has_only_markers() {
    let r = BlockManager::build_block_region(&Vec::new());
    assert_eq!(r, "\n# ENOUGH BLOCK START\n# ENOUGH BLOCK END\n\n");
}

#[test]
fn apply_appends_region_after_terminated_content() {
    let hosts = strings(&["reddit.com"]);
    let a = BlockManager::block_websites("127.0.0.1 localhost\n", &hosts);
    assert_eq!(a, format!("127.0.0.1 localhost\n{}", REDDIT_REGION));
    let b = BlockManager::block_websites("127.0.0.1 localhost", &hosts);
    assert_eq!(b, format!("127.0.0.1 localhost\n{}", REDDIT_REGION.trim_end_matches('\n').to_string() + "\n"));
    assert!(b.ends_with("# ENOUGH BLOCK END\n"));
}

#[test]
fn apply_replaces_earlier_region() {
    let first = BlockManager::block_websites("h\n", &strings(&["a.com"]));
    let second = BlockManager::block_websites(&first, &strings(&["reddit.com"]));
    assert_eq!(second, format!("h\n{}", REDDIT_REGION));
    assert_eq!(second.matches("# ENOUGH BLOCK START").count(), 1);
    assert!(!second.contains("a.com"));
}

#[test]
fn apply_then_revert_restores_file() {
    let c = "127.0.0.1 localhost\n\n::1 localhost\n";
    let applied = BlockManager::block_websites(c, &strings(&["reddit.com", "www.youtube.com"]));
    assert_eq!(BlockManager::remove_existing_blocks(&applied), c);
    let applied = BlockManager::block_websites("", &strings(&["reddit.com"]));
    assert_eq!(BlockManager::remove_existing_blocks(&applied), "");
}

#[test]
fn apply_then_revert_keeps_missing_final_newline() {
    let hosts = strings(&["reddit.com"]);
    for c in ["127.0.0.1 localhost", "a\n\nb", "x"] {
        let applied = BlockManager::block_websites(c, &hosts);
        assert_eq!(BlockManager::remove_existing_blocks(&applied), c);
    }
}

#[test]
fn apply_twice_equals_apply_once() {
    let hosts = strings(&["reddit.com", "www.youtube.com"]);
    for c in ["", "h", "h\n", "h\n\n", "a\n# ENOUGH BLOCK START\nx\n"] {
        let once = BlockManager::block_websites(c, &hosts);
        let twice = BlockManager::block_websites(&once, &hosts);
        assert_eq!(once, twice);
    }
}

#[test]
fn remove_drops_separator_blank_lines_only() {
    let c = "a\n\n\n# ENOUGH BLOCK START\nx\n# ENOUGH BLOCK END\n\n\nb\n";
    assert_eq!(BlockManager::remove_existing_blocks(c), "a\n\n\nb\n");
    assert_eq!(BlockManager::remove_existing_blocks("a\n\nb\n\n"), "a\n\nb\n\n");
}

#[test]
fn website_hosts_extracts_hosts_in_order() {
    let w = strings(&["https://www.youtube.com", "https://reddit.com/r/rust", "unix:/run/foo.socket"]);
    assert_eq!(website_hosts(&w), strings(&["www.youtube.com", "reddit.com"]));
}
