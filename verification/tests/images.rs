use health_monitor::images::{
    parse_image_list, read_tool_run, ImageEntry, ToolRun, CARRIAGE_RETURN, LINE_FEED,
    LISTING_FORMAT, MAX_REPORTED_IMAGES, TAB,
};

fn triples(images: &[ImageEntry]) -> Vec<(String, String, String)> {
    images
        .iter()
        .map(|image| (image.name.clone(), image.size_label.clone(), image.created_label.clone()))
        .collect()
}

fn expected(images: &[(&str, &str, &str)]) -> Vec<(String, String, String)> {
    images
        .iter()
        .map(|(name, size, created)| (name.to_string(), size.to_string(), created.to_string()))
        .collect()
}

#[test]
fn listing_format_has_three_tab_separated_fields() {
    assert_eq!(LISTING_FORMAT, "{{.Repository}}:{{.Tag}}\t{{.Size}}\t{{.CreatedAt}}");
    assert_eq!(LISTING_FORMAT.split('\t').count(), 3);
    assert_eq!(MAX_REPORTED_IMAGES, 10);
    assert_eq!(TAB, b'\t');
    assert_eq!(LINE_FEED, b'\n');
    assert_eq!(CARRIAGE_RETURN, b'\r');
}

#[test]
fn listing_is_read_line_by_line() {
    let listing = "nginx:latest\t142MB\t2024-01-05 10:00:00 +0000 UTC\n\
                   postgres:16\t431MB\t2024-02-11 08:30:00 +0000 UTC\n";
    let images = parse_image_list(listing);
    assert_eq!(
        triples(&images),
        expected(&[
            ("nginx:latest", "142MB", "2024-01-05 10:00:00 +0000 UTC"),
            ("postgres:16", "431MB", "2024-02-11 08:30:00 +0000 UTC"),
        ])
    );
}

#[test]
fn last_line_needs_no_line_feed() {
    let images = parse_image_list("a:1\t1MB\tnow\nb:2\t2MB\tthen");
    assert_eq!(triples(&images), expected(&[("a:1", "1MB", "now"), ("b:2", "2MB", "then")]));
}

#[test]
fn empty_listing_names_no_image() {
    assert!(parse_image_list("").is_empty());
    assert!(parse_image_list("\n").is_empty());
    assert!(parse_image_list("\n\n\r\n\n").is_empty());
}

#[test]
fn empty_lines_are_skipped() {
    let images = parse_image_list("\n\na:1\t1MB\tnow\n\n\nb:2\t2MB\tthen\n\n");
    assert_eq!(triples(&images), expected(&[("a:1", "1MB", "now"), ("b:2", "2MB", "then")]));
}

#[test]
fn lines_with_fewer_than_three_fields_are_skipped() {
    let listing = "just-a-name\nname\tsize\nok:1\t5MB\ttoday\n\t\nname only\t\n";
    let images = parse_image_list(listing);
    assert_eq!(triples(&images), expected(&[("ok:1", "5MB", "today")]));
}

#[test]
fn fields_after_the_third_are_ignored() {
    let images = parse_image_list("a:1\t1MB\tnow\textra\tmore\n");
    assert_eq!(triples(&images), expected(&[("a:1", "1MB", "now")]));
    let images = parse_image_list("a:1\t1MB\tnow\t");
    assert_eq!(triples(&images), expected(&[("a:1", "1MB", "now")]));
}

#[test]
fn empty_fields_are_kept() {
    let images = parse_image_list("\t\t\n");
    assert_eq!(triples(&images), expected(&[("", "", "")]));
    let images = parse_image_list("<none>:<none>\t\t3 weeks ago\n");
    assert_eq!(triples(&images), expected(&[("<none>:<none>", "", "3 weeks ago")]));
}

#[test]
fn carriage_return_before_line_feed_ends_the_line() {
    let images = parse_image_list("a:1\t1MB\tnow\r\nb:2\t2MB\tthen\r\n");
    assert_eq!(triples(&images), expected(&[("a:1", "1MB", "now"), ("b:2", "2MB", "then")]));
}

#[test]
fn only_one_carriage_return_belongs_to_the_line_ending() {
    let images = parse_image_list("a:1\t1MB\tnow\r\r\n");
    assert_eq!(triples(&images), expected(&[("a:1", "1MB", "now\r")]));
}

#[test]
fn carriage_return_elsewhere_is_part_of_the_field() {
    let images = parse_image_list("a\r:1\t1MB\tnow\nb:2\t2MB\tthen\r");
    assert_eq!(triples(&images), expected(&[("a\r:1", "1MB", "now"), ("b:2", "2MB", "then\r")]));
}

#[test]
fn fields_may_hold_any_text() {
    let listing = "registry.example/caf\u{e9}:\u{65e5}\u{672c}\t1.2 GB\tvor 3 Tagen \u{1f600}\n";
    let images = parse_image_list(listing);
    assert_eq!(
        triples(&images),
        expected(&[(
            "registry.example/caf\u{e9}:\u{65e5}\u{672c}",
            "1.2 GB",
            "vor 3 Tagen \u{1f600}"
        )])
    );
}

#[test]
fn multibyte_text_next_to_separators_is_cut_cleanly() {
    let listing = "\u{e9}\t\u{e9}\t\u{e9}\n\u{1f600}\t\u{1f600}\t\u{1f600}\r\n\u{65e5}\t\u{65e5}\t\u{65e5}";
    let images = parse_image_list(listing);
    assert_eq!(
        triples(&images),
        expected(&[
            ("\u{e9}", "\u{e9}", "\u{e9}"),
            ("\u{1f600}", "\u{1f600}", "\u{1f600}"),
            ("\u{65e5}", "\u{65e5}", "\u{65e5}"),
        ])
    );
}

#[test]
fn at_most_ten_images_are_reported_in_listing_order() {
    let mut listing = String::new();
    for index in 0..25 {
        if index % 3 == 0 {
            listing.push_str("not an image line\n");
        }
        listing.push_str(&format!("image{}:v\t{}MB\tday {}\n", index, index * 10, index));
    }
    let images = parse_image_list(&listing);
    assert_eq!(images.len(), 10);
    for (index, image) in images.iter().enumerate() {
        assert_eq!(image.name, format!("image{}:v", index));
        assert_eq!(image.size_label, format!("{}MB", index * 10));
        assert_eq!(image.created_label, format!("day {}", index));
    }
}

#[test]
fn exactly_ten_images_are_all_reported() {
    let mut listing = String::new();
    for index in 0..10 {
        listing.push_str(&format!("i{}\ts\tc\n", index));
    }
    assert_eq!(parse_image_list(&listing).len(), 10);
    listing.push_str("i10\ts\tc");
    assert_eq!(parse_image_list(&listing).len(), 10);
}

#[test]
fn missing_tool_lists_no_image() {
    assert!(read_tool_run(ToolRun::Unavailable).is_empty());
}

#[test]
fn failed_tool_lists_no_image() {
    assert!(read_tool_run(ToolRun::Failed).is_empty());
}

#[test]
fn successful_tool_output_is_read_as_a_listing() {
    let stdout = b"alpine:3.19\t7.4MB\t2024-01-27\nredis:7\t117MB\t2024-03-02\n".to_vec();
    let images = read_tool_run(ToolRun::Succeeded { stdout });
    assert_eq!(
        triples(&images),
        expected(&[("alpine:3.19", "7.4MB", "2024-01-27"), ("redis:7", "117MB", "2024-03-02")])
    );
}

#[test]
fn successful_tool_with_no_output_lists_no_image() {
    assert!(read_tool_run(ToolRun::Succeeded { stdout: Vec::new() }).is_empty());
}

#[test]
fn tool_output_in_utf8_is_read_as_it_stands() {
    let text = "caf\u{e9}:\u{65e5}\t1 GB\t\u{1f600}\n";
    let images = read_tool_run(ToolRun::Succeeded { stdout: text.as_bytes().to_vec() });
    assert_eq!(triples(&images), expected(&[("caf\u{e9}:\u{65e5}", "1 GB", "\u{1f600}")]));
}

#[test]
fn tool_output_that_is_not_text_is_read_with_replacements() {
    let mut stdout = Vec::new();
    stdout.extend_from_slice(b"bad");
    stdout.push(0xff);
    stdout.extend_from_slice(b":tag\t10MB\t");
    stdout.extend_from_slice(&[0xe6, 0x97]);
    stdout.extend_from_slice(b"\nfine:1\t2MB\tnow\n");
    let images = read_tool_run(ToolRun::Succeeded { stdout });
    assert_eq!(
        triples(&images),
        expected(&[("bad\u{fffd}:tag", "10MB", "\u{fffd}"), ("fine:1", "2MB", "now")])
    );
}

#[test]
fn tool_output_is_capped_like_any_listing() {
    let mut stdout = Vec::new();
    for index in 0..40 {
        stdout.extend_from_slice(format!("n{}\ts\tc\n", index).as_bytes());
    }
    let images = read_tool_run(ToolRun::Succeeded { stdout });
    assert_eq!(images.len(), 10);
    assert_eq!(images[0].name, "n0");
    assert_eq!(images[9].name, "n9");
}

#[test]
fn image_entry_clone_is_equal() {
    let images = parse_image_list("a\tb\tc");
    let copy = images[0].clone();
    assert_eq!(copy.name, "a");
    assert_eq!(copy.size_label, "b");
    assert_eq!(copy.created_label, "c");
}
