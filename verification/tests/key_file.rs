use rmenu::error::Error;
use rmenu::key_file::KeyFile;

#[test]
fn test_keyfile() {
    let text = "
 # a comment

[Desktop Entry]
Name=Firefox
GenericName=Web Browser

# another comment
GenericName[ar]=متصفح ويب
Hidden=false
GenericName[ast]=Restolador Web
NoDisplay=true
GenericName[en_US@Mod]=Web Browser

[Second Section]
k=v
";
    let kf = KeyFile::read_bytes(text.as_bytes()).unwrap();

    assert_eq!(kf.get_default_string("Desktop Entry", "Name"),
               Some("Firefox"));
    assert_eq!(kf.get_default_string("Desktop Entry", "GenericName"),
               Some("Web Browser"));
    assert_eq!(kf.get_default_string("Second Section", "k"), Some("v"));

    assert_eq!(kf.get_localized_string("Desktop Entry", "GenericName", "ast"),
               Some("Restolador Web"));
    assert_eq!(kf.get_localized_string("Desktop Entry", "GenericName", "en_US@Mod"),
               Some("Web Browser"));

    assert_eq!(kf.get_default_string("Desktop Entry", "Blah"), None);
    assert_eq!(kf.get_default_string("DesktopEntry", "Name"), None);
    assert_eq!(kf.get_localized_string("Desktop Entry", "GenericName", "foo"),
               None);

    assert_eq!(kf.get_boolean("Desktop Entry", "Hidden"), Some(false));
    assert_eq!(kf.get_boolean("Desktop Entry", "NoDisplay"), Some(true));
    assert_eq!(kf.get_boolean("Desktop Entry", "Name"), None);
}

fn parse(text: &str) -> KeyFile {
    KeyFile::read_bytes(text.as_bytes()).unwrap()
}

fn fails(bytes: &[u8]) -> bool {
    matches!(KeyFile::read_bytes(bytes), Err(Error::Parse))
}

#[test]
fn non_ascii_value_is_kept() {
    let kf = parse("[Desktop Entry]\nGenericName[ar]=متصفح ويب\n");
    assert_eq!(kf.get_localized_string("Desktop Entry", "GenericName", "ar"),
               Some("متصفح ويب"));
}

#[test]
fn canonical_example() {
    let kf = parse("[Desktop Entry]\nName=Firefox\nGenericName=Web Browser\nGenericName[ast]=Restolador Web\nHidden=false\nNoDisplay=true\n");
    assert_eq!(kf.get_default_string("Desktop Entry", "Name"), Some("Firefox"));
    assert_eq!(kf.get_localized_string("Desktop Entry", "GenericName", "ast"),
               Some("Restolador Web"));
    assert_eq!(kf.get_boolean("Desktop Entry", "Hidden"), Some(false));
    assert_eq!(kf.get_boolean("Desktop Entry", "NoDisplay"), Some(true));
}

#[test]
fn parsing_twice_gives_the_same() {
    let text = "# c\n[A]\nx=1\ny[de]=2\n[B]\nz=3\n[A]\nx=4\n";
    let one = parse(text);
    let two = parse(text);
    for group in ["A", "B", "C"] {
        for key in ["x", "y", "z"] {
            assert_eq!(one.get_default_string(group, key), two.get_default_string(group, key));
            assert_eq!(one.get_localized_string(group, key, "de"),
                       two.get_localized_string(group, key, "de"));
        }
    }
    assert!(one == two);
}

#[test]
fn repeated_key_has_its_last_value() {
    let kf = parse("[G]\nk=one\nother=x\nk=two\nk=three\n");
    assert_eq!(kf.get_default_string("G", "k"), Some("three"));
    assert_eq!(kf.get_default_string("G", "other"), Some("x"));
}

#[test]
fn repeated_key_with_locale_has_its_last_value() {
    let kf = parse("[G]\nk[de]=eins\nk=one\nk[de]=zwei\n");
    assert_eq!(kf.get_localized_string("G", "k", "de"), Some("zwei"));
    assert_eq!(kf.get_default_string("G", "k"), Some("one"));
}

#[test]
fn repeated_group_is_the_last_one_written() {
    let kf = parse("[G]\na=1\nb=2\n[H]\nc=3\n[G]\nb=4\n");
    assert_eq!(kf.get_default_string("G", "b"), Some("4"));
    assert_eq!(kf.get_default_string("G", "a"), None);
    assert_eq!(kf.get_default_string("H", "c"), Some("3"));
}

#[test]
fn locale_is_matched_exactly() {
    let kf = parse("[Desktop Entry]\nGenericName[en_US]=X\n");
    assert_eq!(kf.get_localized_string("Desktop Entry", "GenericName", "en"), None);
    assert_eq!(kf.get_localized_string("Desktop Entry", "GenericName", "en_US"), Some("X"));
    assert_eq!(kf.get_localized_string("Desktop Entry", "GenericName", "en_US@euro"), None);
    assert_eq!(kf.get_localized_string("Desktop Entry", "GenericName", "en_us"), None);
    assert_eq!(kf.get_default_string("Desktop Entry", "GenericName"), None);
}

#[test]
fn default_value_is_no_fallback_for_a_locale() {
    let kf = parse("[G]\nk=plain\n");
    assert_eq!(kf.get_localized_string("G", "k", "de"), None);
    assert_eq!(kf.get_localized_string("G", "k", ""), None);
    assert_eq!(kf.get_localized_string("G", "k", "not a locale"), None);
}

#[test]
fn locale_with_modifier_only() {
    let kf = parse("[G]\nk[sr@latin]=a\nk[sr_RS]=b\nk[sr_RS@latin]=c\nk[sr]=d\n");
    assert_eq!(kf.get_localized_string("G", "k", "sr@latin"), Some("a"));
    assert_eq!(kf.get_localized_string("G", "k", "sr_RS"), Some("b"));
    assert_eq!(kf.get_localized_string("G", "k", "sr_RS@latin"), Some("c"));
    assert_eq!(kf.get_localized_string("G", "k", "sr"), Some("d"));
    assert_eq!(kf.get_localized_string("G", "k", "sr@latin_RS"), None);
}

#[test]
fn booleans_are_strict() {
    let kf = parse("[G]\na=true\nb=false\nc=True\nd=1\ne=\nf= true\ng=true \nh=FALSE\n");
    assert_eq!(kf.get_boolean("G", "a"), Some(true));
    assert_eq!(kf.get_boolean("G", "b"), Some(false));
    assert_eq!(kf.get_boolean("G", "c"), None);
    assert_eq!(kf.get_boolean("G", "d"), None);
    assert_eq!(kf.get_boolean("G", "e"), None);
    assert_eq!(kf.get_boolean("G", "f"), None);
    assert_eq!(kf.get_boolean("G", "g"), None);
    assert_eq!(kf.get_boolean("G", "h"), None);
    assert_eq!(kf.get_boolean("G", "missing"), None);
    assert_eq!(kf.get_boolean("Missing", "a"), None);
}

#[test]
fn boolean_ignores_localized_values() {
    let kf = parse("[G]\na[de]=true\n");
    assert_eq!(kf.get_boolean("G", "a"), None);
}

#[test]
fn valid_prefix_with_invalid_suffix_fails() {
    assert!(fails(b"[G]\nk=v\nstray"));
    assert!(fails(b"[G]\nk=v\n[Unterminated"));
    assert!(fails(b"[G]\nk=v\n[]\n"));
    assert!(fails(b"[G]\nk=v\nk2 v2\n"));
    assert!(fails(b"[G]\nk=v\n=v\n"));
    assert!(fails(b"[G]\nk=v\nk_2=v\n"));
}

#[test]
fn assignment_before_any_group_fails() {
    assert!(fails(b"k=v\n[G]\n"));
    assert!(fails(b"k=v\n"));
}

#[test]
fn malformed_locale_suffix_fails() {
    assert!(fails(b"[G]\nk[en_]=v\n"));
    assert!(fails(b"[G]\nk[]=v\n"));
    assert!(fails(b"[G]\nk[en=v\n"));
    assert!(fails(b"[G]\nk[e1]=v\n"));
    assert!(fails(b"[G]\nk[en-US]=v\n"));
    assert!(fails(b"[G]\nk[en@]=v\n"));
    assert!(fails(b"[G]\nk[en@a_B]=v\n"));
    assert!(fails(b"[G]\nk [en]=v\n"));
}

#[test]
fn text_that_is_not_utf8_fails() {
    assert!(fails(b"[G]\nk=\xff\n"));
    assert!(fails(b"[G\xc3]\nk=v\n"));
    assert!(fails(b"[G]\nk=\xed\xa0\x80\n"));
    assert!(!fails(b"[G]\n# \xff\nk=v\n"));
}

#[test]
fn empty_and_blank_inputs_are_empty_files() {
    for text in ["", "\n", "   \n\t\r\n", "# only a comment", " # indented\n\n# more\n"] {
        let kf = parse(text);
        assert_eq!(kf.get_default_string("Desktop Entry", "Name"), None);
    }
}

#[test]
fn group_without_assignments() {
    let kf = parse("[Empty]\n[Full]\nk=v");
    assert_eq!(kf.get_default_string("Empty", "k"), None);
    assert_eq!(kf.get_default_string("Full", "k"), Some("v"));
}

#[test]
fn group_name_is_taken_verbatim() {
    let kf = parse("[ a [b\n# c ]\nk=v\n");
    assert_eq!(kf.get_default_string(" a [b\n# c ", "k"), Some("v"));
    assert_eq!(kf.get_default_string("a [b\n# c", "k"), None);
}

#[test]
fn header_may_be_followed_by_an_assignment_on_its_line() {
    let kf = parse("[G] \t k=v\n");
    assert_eq!(kf.get_default_string("G", "k"), Some("v"));
}

#[test]
fn value_is_taken_verbatim() {
    let kf = parse("[G]\na= v \nb \t=\tw\\n\nc==\nd=# no comment\ne=[x]\n");
    assert_eq!(kf.get_default_string("G", "a"), Some(" v "));
    assert_eq!(kf.get_default_string("G", "b"), Some("\tw\\n"));
    assert_eq!(kf.get_default_string("G", "c"), Some("="));
    assert_eq!(kf.get_default_string("G", "d"), Some("# no comment"));
    assert_eq!(kf.get_default_string("G", "e"), Some("[x]"));
}

#[test]
fn value_ends_at_carriage_return_or_line_feed() {
    let kf = parse("[G]\r\na=1\r\nb=2\rc=3\n");
    assert_eq!(kf.get_default_string("G", "a"), Some("1"));
    assert_eq!(kf.get_default_string("G", "b"), Some("2"));
    assert_eq!(kf.get_default_string("G", "c"), Some("3"));
}

#[test]
fn key_names_hold_letters_and_hyphens() {
    let kf = parse("[G]\nX-Some-Key=1\n-=2\n");
    assert_eq!(kf.get_default_string("G", "X-Some-Key"), Some("1"));
    assert_eq!(kf.get_default_string("G", "-"), Some("2"));
    assert!(fails(b"[G]\nkey1=v\n"));
    assert!(fails(b"[G]\nk\xc3\xa9y=v\n"));
}

#[test]
fn comments_and_blank_lines_between_assignments() {
    let kf = parse("\n\n# top\n \t # indented\n[G]\n\n# one\na=1\n   \n\t# two\n b=2\n# end");
    assert_eq!(kf.get_default_string("G", "a"), Some("1"));
    assert_eq!(kf.get_default_string("G", "b"), Some("2"));
}

#[test]
fn same_name_with_and_without_locale_are_two_keys() {
    let kf = parse("[G]\nk=plain\nk[de]=deutsch\n");
    assert_eq!(kf.get_default_string("G", "k"), Some("plain"));
    assert_eq!(kf.get_localized_string("G", "k", "de"), Some("deutsch"));
}

#[test]
fn lookups_are_case_sensitive() {
    let kf = parse("[Group]\nKey=v\n");
    assert_eq!(kf.get_default_string("group", "Key"), None);
    assert_eq!(kf.get_default_string("Group", "key"), None);
    assert_eq!(kf.get_default_string("Group", "Key"), Some("v"));
}

#[test]
fn files_are_equal_when_they_hold_the_same() {
    let one = parse("[A]\nx=1\ny=2\n[B]\nz=3\n");
    let two = parse("# other order, and rewritten\n[B]\nz=0\nz=3\n[A]\ny=2\nx=1\n");
    let three = parse("[A]\nx=1\ny=2\n[B]\nz=4\n");
    let four = parse("[A]\nx=1\ny=2\n");
    assert!(one == two);
    assert!(two == one);
    assert!(one != three);
    assert!(one != four);
    assert!(four != one);
}
