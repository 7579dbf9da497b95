use djdrop::binaries::executable_name;

#[test]
fn exe_suffix_on_windows() {
    // Verify the exe helper appends .exe on Windows
    let windows = std::path::MAIN_SEPARATOR == '\\';
    let suffix = if windows { ".exe" } else { "" };
    let expected = format!("yt-dlp{}", suffix);
    assert!(expected.ends_with(suffix));
    assert_eq!(executable_name("yt-dlp", windows), expected);
}

#[test]
fn executable_names_per_platform() {
    assert_eq!(executable_name("keyfinder-cli", true), "keyfinder-cli.exe");
    assert_eq!(executable_name("keyfinder-cli", false), "keyfinder-cli");
}
