use tetron_messageboard::upload::{sanitize_name, sniff_image};

#[test]
fn sniffs_real_formats_and_rejects_others() {
    assert_eq!(sniff_image(&[0x89, 0x50, 0x4E, 0x47, 0x0D, 0x0A, 0x1A, 0x0A, 0]), Some("image/png"));
    assert_eq!(sniff_image(&[0xFF, 0xD8, 0xFF, 0xE0]), Some("image/jpeg"));
    assert_eq!(sniff_image(b"GIF89a....."), Some("image/gif"));
    let mut webp = b"RIFF____WEBPVP8 ".to_vec();
    webp.truncate(16);
    assert_eq!(sniff_image(&webp), Some("image/webp"));
    // An SVG (the stored-XSS vector) must be rejected.
    assert_eq!(sniff_image(b"<svg xmlns=\"http://www.w3.org/2000/svg\">"), None);
    assert_eq!(sniff_image(b"<!DOCTYPE html>"), None);
}

#[test]
fn sanitize_strips_paths_and_control_chars() {
    assert_eq!(sanitize_name("../../etc/passwd"), "passwd");
    assert_eq!(sanitize_name("a\nb.png"), "ab.png");
    assert_eq!(sanitize_name(""), "image");
}

#[test]
fn short_signatures_are_no_images() {
    assert_eq!(sniff_image(&[]), None);
    assert_eq!(sniff_image(&[0xFF, 0xD8]), None);
    assert_eq!(sniff_image(b"GIF89"), None);
    assert_eq!(sniff_image(b"GIF87a"), Some("image/gif"));
    assert_eq!(sniff_image(b"RIFF____WEB"), None);
    assert_eq!(sniff_image(b"RIFF____WAVE"), None);
    assert_eq!(sniff_image(&[0x89, 0x50, 0x4E, 0x47, 0x0D, 0x0A, 0x1A]), None);
}

#[test]
fn names_are_cut_and_never_blank() {
    assert_eq!(sanitize_name(&"x".repeat(200)), "x".repeat(120));
    assert_eq!(sanitize_name("dir/"), "image");
    assert_eq!(sanitize_name("   "), "image");
    assert_eq!(sanitize_name("c:\\pics\\cat.png"), "cat.png");
    assert_eq!(sanitize_name(" cat .png"), " cat .png");
    assert_eq!(sanitize_name("\u{7f}\u{9f}ok"), "ok");
}

#[test]
fn cleaning_twice_is_cleaning_once() {
    for name in ["a/b", "..", "\u{0}x", "plain.png", ""] {
        let once = sanitize_name(name);
        assert_eq!(sanitize_name(&once), once);
    }
}
