use textsearcher::compiler::{compile_atom, compile_or_group};

#[test]
fn test_get_regex_for_atom() {
    assert_eq!(compile_atom(""), "");
    assert_eq!(compile_atom("  "), "");
    assert_eq!(compile_atom("      "), "");
    assert_eq!(compile_atom("hello"), "hello");
    assert_eq!(compile_atom("hello world"), "hello\\s+world");
    assert_eq!(compile_atom("hello world    again"), "hello\\s+world\\s+again");
    assert_eq!(compile_atom("  hello world    "), "hello\\s+world");
    assert_eq!(compile_atom("中"), "中");
    assert_eq!(compile_atom("中文"), "中\\s*文");
    assert_eq!(compile_atom("   中 文"), "中\\s+文");
    assert_eq!(compile_atom("     中 文   "), "中\\s+文");
    assert_eq!(compile_atom("中hello"), "中\\s*hello");
    assert_eq!(compile_atom("中文hello"), "中\\s*文\\s*hello");
    assert_eq!(compile_atom("中文hello world"), "中\\s*文\\s*hello\\s+world");
    assert_eq!(compile_atom("中文 hello world"), "中\\s*文\\s*hello\\s+world");
    assert_eq!(compile_atom("中文    hello  world"), "中\\s*文\\s*hello\\s+world");
    assert_eq!(compile_atom("hello中"), "hello\\s*中");
    assert_eq!(compile_atom("hello中文"), "hello\\s*中\\s*文");
    assert_eq!(compile_atom("hello world中文"), "hello\\s+world\\s*中\\s*文");
    assert_eq!(compile_atom("hello   world 中文"), "hello\\s+world\\s*中\\s*文");
    assert_eq!(compile_atom("hello   world   中文"), "hello\\s+world\\s*中\\s*文");
    assert_eq!(compile_atom("hello world中文again"), "hello\\s+world\\s*中\\s*文\\s*again");
    assert_eq!(compile_atom("hello world  中文 again"), "hello\\s+world\\s*中\\s*文\\s*again");
    assert_eq!(compile_atom("  hello world  中文 again  "), "hello\\s+world\\s*中\\s*文\\s*again");
    assert_eq!(compile_atom("中文hello world世界"), "中\\s*文\\s*hello\\s+world\\s*世\\s*界");
    assert_eq!(compile_atom("  中文 hello world世界   "), "中\\s*文\\s*hello\\s+world\\s*世\\s*界");
    assert_eq!(compile_atom(" 中文hello world   世界"), "中\\s*文\\s*hello\\s+world\\s*世\\s*界");
}

#[test]
fn blank_atoms_compile_to_empty_source() {
    assert_eq!(compile_atom(""), "");
    assert_eq!(compile_atom(" \t\r\n"), "");
    assert_eq!(compile_atom("\n\n\n"), "");
}

#[test]
fn ascii_words_join_with_plus() {
    assert_eq!(compile_atom("foo bar"), "foo\\s+bar");
    assert_eq!(compile_atom("\tfoo\nbar  baz\r"), "foo\\s+bar\\s+baz");
}

#[test]
fn han_chars_join_with_star_or_plus() {
    assert_eq!(compile_atom("世界"), "世\\s*界");
    assert_eq!(compile_atom("世 界"), "世\\s+界");
    assert_eq!(compile_atom("ひらがな"), "ひ\\s*ら\\s*が\\s*な");
}

#[test]
fn script_transitions_join_with_star() {
    assert_eq!(compile_atom("abc中"), "abc\\s*中");
    assert_eq!(compile_atom("中abc"), "中\\s*abc");
    assert_eq!(compile_atom("abc 中"), "abc\\s*中");
    assert_eq!(compile_atom("中 abc"), "中\\s*abc");
}

#[test]
fn compiling_twice_is_identical() {
    let atoms = ["", "  hello world  ", "中文hello", "a.b+c", "世界 again"];
    for atom in atoms.iter() {
        assert_eq!(compile_atom(atom), compile_atom(atom));
    }
}

#[test]
fn or_groups_join_sources_with_the_alternation_bar() {
    assert_eq!(compile_or_group(&Vec::new()), "");
    assert_eq!(compile_or_group(&vec![String::from("hello")]), "hello");
    assert_eq!(
        compile_or_group(&vec![String::from("中文"), String::from("hello world")]),
        "中\\s*文|hello\\s+world"
    );
}

#[test]
fn meta_characters_are_escaped() {
    assert_eq!(compile_atom("a.b+c"), "a\\.b\\+c");
    assert_eq!(compile_atom("(x|y)*"), "\\(x\\|y\\)\\*");
    assert_eq!(compile_atom("a-b~c#d&e"), "a\\-b\\~c\\#d\\&e");
    assert_eq!(compile_atom("[x]{2}^$?\\"), "\\[x\\]\\{2\\}\\^\\$\\?\\\\");
}
