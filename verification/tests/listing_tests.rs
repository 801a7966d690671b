use file_explorer::listing::{get_files_in_folder, ListError};

fn names(parts: &[&str]) -> Vec<String> {
    parts.iter().map(|p| p.to_string()).collect()
}

#[test]
fn empty_directory_gives_empty_list() {
    assert_eq!(get_files_in_folder(&Ok(Vec::new())), Ok(Vec::<String>::new()));
}

#[test]
fn listing_keeps_every_name_in_order() {
    let reading = Ok(vec![
        Ok("b".to_string()),
        Ok(".hidden".to_string()),
        Ok("a".to_string()),
        Ok("b".to_string()),
    ]);
    assert_eq!(get_files_in_folder(&reading), Ok(names(&["b", ".hidden", "a", "b"])));
}

#[test]
fn missing_directory_is_not_found() {
    assert_eq!(get_files_in_folder(&Err(ListError::NotFound)), Err(ListError::NotFound));
}

#[test]
fn denied_directory_is_permission_denied() {
    assert_eq!(
        get_files_in_folder(&Err(ListError::PermissionDenied)),
        Err(ListError::PermissionDenied)
    );
}

#[test]
fn failed_read_is_io() {
    assert_eq!(get_files_in_folder(&Err(ListError::Io)), Err(ListError::Io));
}

#[test]
fn first_failing_entry_decides() {
    let reading = Ok(vec![
        Ok("a".to_string()),
        Err(ListError::PermissionDenied),
        Ok("b".to_string()),
        Err(ListError::Io),
    ]);
    assert_eq!(get_files_in_folder(&reading), Err(ListError::PermissionDenied));
}

#[test]
fn failure_at_the_last_entry_is_handed_on() {
    let reading = Ok(vec![Ok("a".to_string()), Err(ListError::Io)]);
    assert_eq!(get_files_in_folder(&reading), Err(ListError::Io));
}
