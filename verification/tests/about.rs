use kafkamitter::ui::about::{librdkafka_version, platform, summary, summary_of, HOMEPAGE, VERSION};

#[test]
fn the_summary_holds_the_app_version() {
    let text = summary("macos", "aarch64");
    assert!(text.starts_with("Kafkamitter "), "got {text}");
    assert!(text.contains(VERSION), "got {text}");
    assert_eq!(VERSION, "0.3.0");
}

#[test]
fn the_summary_holds_the_client_library_version() {
    let version = librdkafka_version();
    assert!(version.starts_with(|c: char| c.is_ascii_digit()), "got {version}");
    assert!(summary("macos", "aarch64").contains(&version));
}

#[test]
fn the_summary_names_the_platform() {
    assert_eq!(
        summary_of("linux", "x86_64", "2.3.0"),
        "Kafkamitter 0.3.0 (linux x86_64, librdkafka 2.3.0)"
    );
    assert_eq!(platform("linux", "x86_64"), "linux x86_64");
    assert!(HOMEPAGE.starts_with("https://"));
}
