use leonbasic::natives::{
    color_code_of_lower, format_time_with_pattern, get_background_code, get_color_code, input_prompt,
};

#[test]
fn color_names_ignore_case() {
    assert_eq!(get_color_code("RED"), "\x1b[31m");
    assert_eq!(get_color_code("Bright_Cyan"), "\x1b[96m");
    assert_eq!(get_color_code("grey"), "\x1b[90m");
}

#[test]
fn unknown_color_resets() {
    assert_eq!(get_color_code("mauve"), "\x1b[0m");
    assert_eq!(color_code_of_lower("RED"), "\x1b[0m");
    assert_eq!(color_code_of_lower("red"), "\x1b[31m");
}

#[test]
fn background_codes() {
    assert_eq!(get_background_code("red"), "\x1b[41m");
    assert_eq!(get_background_code("bright_red"), "\x1b[101m");
    assert_eq!(get_background_code("nothing"), "\x1b[0m");
}

#[test]
fn epoch_formats_as_start_of_1970() {
    assert_eq!(
        format_time_with_pattern(0, "%Y-%m-%d %H:%M:%S"),
        Ok("1970-01-01 00:00:00".to_string())
    );
}

#[test]
fn simplified_calendar_fields() {
    let ts = 366 * 86400 + 3661;
    assert_eq!(format_time_with_pattern(ts, "%Y-%m-%d %H:%M:%S"), Ok("1971-01-07 01:01:01".to_string()));
}

#[test]
fn other_pattern_text_is_kept() {
    assert_eq!(format_time_with_pattern(59, "[%x %S%%]"), Ok("[%x 59%%]".to_string()));
}

#[test]
fn input_prompt_takes_quoted_text() {
    assert_eq!(input_prompt("\"Name: \""), "Name: ");
    assert_eq!(input_prompt("plain"), "plain");
    assert_eq!(input_prompt("a\"b"), "a\"b");
}
