use exclusive_worker::say_hello;

#[test]
fn hello() {
    assert_eq!(say_hello(), "Hello, World!");
}

#[test]
fn lib_hello() {
    assert_eq!(say_hello(), "Hello, World!");
}
