use exprlang::symbol::{function_name_of, short_function_name};

#[test]
fn short_name_takes_last_path_piece() {
    assert_eq!(short_function_name("exprlang::parser::Parser::factor"), "factor");
    assert_eq!(short_function_name("main"), "main");
    assert_eq!(short_function_name("a::b<T>::c"), "b");
    assert_eq!(short_function_name("core::ops::function::FnOnce::call_once<F>"), "call_once");
    assert_eq!(short_function_name("ends::"), "");
    assert_eq!(short_function_name(""), "");
}

#[test]
fn mangled_symbols_are_demangled_first() {
    assert_eq!(function_name_of("_ZN3foo3barE"), "bar");
    assert_eq!(function_name_of("_ZN4testE"), "test");
    assert_eq!(function_name_of("plain::name"), "name");
}
