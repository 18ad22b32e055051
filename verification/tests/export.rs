use long_shot_rs::export::{
    expand_command, file_name, image_for_export, save_target, ExportError, LocalTime, SaveTarget,
};

fn time(year: i32, month: u32, day: u32, hour: u32, minute: u32, second: u32) -> LocalTime {
    LocalTime { year, month, day, hour, minute, second }
}

#[test]
fn files_are_named_by_their_time() {
    assert_eq!(
        file_name(&time(2024, 2, 29, 7, 5, 59)),
        Some("longshot_20240229_070559.png".to_string()),
    );
    assert_eq!(
        file_name(&time(12, 12, 31, 23, 59, 0)),
        Some("longshot_00121231_235900.png".to_string()),
    );
    assert_eq!(
        file_name(&time(9999, 1, 1, 0, 0, 0)),
        Some("longshot_99990101_000000.png".to_string()),
    );
    assert_eq!(
        file_name(&time(10000, 1, 1, 0, 0, 0)),
        Some("longshot_+100000101_000000.png".to_string()),
    );
    assert_eq!(
        file_name(&time(-1, 1, 1, 0, 0, 0)),
        Some("longshot_-00010101_000000.png".to_string()),
    );
    assert_eq!(
        file_name(&time(-262143, 1, 1, 0, 0, 0)),
        Some("longshot_-2621430101_000000.png".to_string()),
    );
    assert_eq!(
        file_name(&time(262142, 12, 31, 23, 59, 59)),
        Some("longshot_+2621421231_235959.png".to_string()),
    );
}

#[test]
fn times_that_do_not_exist_have_no_name() {
    for bad in [
        time(2023, 2, 29, 0, 0, 0),
        time(1900, 2, 29, 0, 0, 0),
        time(2024, 4, 31, 0, 0, 0),
        time(2024, 0, 1, 0, 0, 0),
        time(2024, 13, 1, 0, 0, 0),
        time(2024, 1, 0, 0, 0, 0),
        time(2024, 1, 1, 24, 0, 0),
        time(2024, 1, 1, 0, 60, 0),
        time(2024, 1, 1, 0, 0, 60),
        time(-1, 2, 29, 0, 0, 0),
        time(-262144, 1, 1, 0, 0, 0),
        time(262143, 1, 1, 0, 0, 0),
    ] {
        assert_eq!(file_name(&bad), None, "{:?}", bad);
    }
    assert!(file_name(&time(2000, 2, 29, 0, 0, 0)).is_some());
    assert!(file_name(&time(-4, 2, 29, 0, 0, 0)).is_some());
    assert!(file_name(&time(2024, 6, 30, 0, 0, 0)).is_some());
    assert!(file_name(&time(2024, 7, 31, 0, 0, 0)).is_some());
}

#[test]
fn images_are_exported_unchanged() {
    let data: Vec<u8> = (0..24).collect();
    assert_eq!(image_for_export(&Some(data.clone()), 2, 3), Ok(data.clone()));
    assert_eq!(image_for_export(&Some(data.clone()), 1, 3), Ok(data.clone()));
    assert_eq!(image_for_export(&Some(data.clone()), 2, 4), Err(ExportError::Buffer));
    assert_eq!(image_for_export(&Some(data), u32::MAX, u32::MAX), Err(ExportError::Buffer));
    assert_eq!(image_for_export(&None, 2, 3), Err(ExportError::NoImage));
    assert_eq!(ExportError::NoImage.message(), "No image to save");
    assert_eq!(ExportError::Buffer.message(), "Failed to create image buffer");
}

#[test]
fn options_come_before_the_environment() {
    let some = |s: &'static str| Some(s);
    assert_eq!(save_target(some("f"), some("d"), some("p"), some("h")), SaveTarget::File("f"));
    assert_eq!(save_target(None, some("d"), some("p"), some("h")), SaveTarget::InDirectory("d"));
    assert_eq!(save_target(None, None, some("p"), some("h")), SaveTarget::InDirectory("p"));
    assert_eq!(save_target(None, None, None, some("h")), SaveTarget::InDirectory("h"));
    assert_eq!(save_target::<&str>(None, None, None, None), SaveTarget::InCurrent);
}

#[test]
fn commands_are_expanded() {
    assert_eq!(expand_command("xdg-open {}", "/p/a.png"), "xdg-open /p/a.png");
    assert_eq!(expand_command("echo {} | wl-copy", "图.png"), "echo 图.png | wl-copy");
    assert_eq!(expand_command("true", "x"), "true");
    assert_eq!(expand_command("", "x"), "");
    for command in ["{}{}", "{{}}", "a{", "{ }", "}{", "{{{}", "{}x{}"] {
        for path in ["", "p", "{}", "{"] {
            assert_eq!(expand_command(command, path), command.replace("{}", path));
        }
    }
}
