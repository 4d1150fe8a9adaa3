use kcptun::console::{role, stdin_chunk, Role};

#[test]
fn the_first_argument_picks_the_role() {
    assert_eq!(role(Some("server".to_string())), Role::Server);
    assert_eq!(role(Some("client".to_string())), Role::Client);
    assert_eq!(role(Some("Server".to_string())), Role::Client);
    assert_eq!(role(Some(String::new())), Role::Client);
    assert_eq!(role(None), Role::Client);
}

#[test]
fn standard_input_comes_in_chunks() {
    assert_eq!(stdin_chunk(vec![1, 2, 3, 0, 0], Some(3)), Some(vec![1, 2, 3]));
    assert_eq!(stdin_chunk(vec![1, 2], Some(2)), Some(vec![1, 2]));
    assert_eq!(stdin_chunk(vec![1, 2], Some(9)), Some(vec![1, 2]));
    assert_eq!(stdin_chunk(vec![1, 2], Some(0)), None);
    assert_eq!(stdin_chunk(vec![1, 2], None), None);
}
