use preduce::script::{first_executable, get_executable};

#[test]
fn the_first_executable_path_is_found() {
    let paths = ["a", "b", "c"];
    assert_eq!(first_executable(&paths, &vec![false, true, true]), Some("b".to_string()));
    assert_eq!(first_executable(&paths, &vec![false, false]), None);
    assert_eq!(first_executable(&paths, &vec![]), None);
    assert_eq!(get_executable(&[]), None);
    assert_eq!(get_executable(&["/nonexistent/preduce/tool"]), None);
}
