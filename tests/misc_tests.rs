use kernel_janitor::error::JanitorError;
use kernel_janitor::update::{choice_index, choice_letter, prompt_for_char, versions_to_delete};

#[test]
fn compile_test() {
    let io_err = std::io::Error::new(std::io::ErrorKind::Other, "some_error");
    let _ = JanitorError::io(&io_err.to_string());
}

#[test]
fn macro_test() {
    let err_str = "error";
    let _ = JanitorError::from_message(&format!("Hello, formatted {}", err_str));
}

#[test]
fn uninstall_kernels() -> Result<(), JanitorError> {
    let input = "a";
    let choice = prompt_for_char(input)?;
    assert_eq!(choice, 'a');
    Ok(())
}

#[test]
fn prompt_for_char_on_empty_input_fails() {
    let e = prompt_for_char("").unwrap_err();
    assert_eq!(e.message, "Could not parse input: ");
    assert_eq!(prompt_for_char("zq\n").unwrap(), 'z');
}

#[test]
fn describe_error() {
    let e = JanitorError::io("gone");
    assert_eq!(e.describe(), "Error type io occurred with message gone");
}

#[test]
fn cleanup_counts() {
    assert_eq!(versions_to_delete(5, 3), 2);
    assert_eq!(versions_to_delete(3, 3), 0);
    assert_eq!(versions_to_delete(1, 3), 0);
    assert_eq!(versions_to_delete(usize::MAX, 0), usize::MAX);
}

#[test]
fn choice_letters_and_indices() {
    assert_eq!(choice_letter(0), Some('a'));
    assert_eq!(choice_letter(25), Some('z'));
    assert_eq!(choice_letter(26), None);
    assert_eq!(choice_index('a', 3), Some(0));
    assert_eq!(choice_index('c', 3), Some(2));
    assert_eq!(choice_index('d', 3), None);
    assert_eq!(choice_index('A', 3), None);
}
