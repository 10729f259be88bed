use loop_tasks::text::{char_is_whitespace, chars_of, cut_last_word_in_place, str_lt, string_of, trim_chars, trim_end_in_place};

fn v(s: &str) -> Vec<char> {
    s.chars().collect()
}

#[test]
fn whitespace_list_matches_std() {
    // the contract of the whitespace wrapper lists the White_Space code points
    let listed = |u: u32| {
        (0x09..=0x0d).contains(&u)
            || u == 0x20
            || u == 0x85
            || u == 0xa0
            || u == 0x1680
            || (0x2000..=0x200a).contains(&u)
            || u == 0x2028
            || u == 0x2029
            || u == 0x202f
            || u == 0x205f
            || u == 0x3000
    };
    for u in 0..0x110000u32 {
        if let Some(c) = char::from_u32(u) {
            assert_eq!(c.is_whitespace(), listed(u), "code point {:x}", u);
            assert_eq!(char_is_whitespace(c), c.is_whitespace(), "code point {:x}", u);
        }
    }
}

#[test]
fn trim_matches_str_trim() {
    for s in ["", "   ", "  a b  ", "\u{3000}x\u{a0}", "no-space", "\tline\n", "a\u{200b}"] {
        assert_eq!(trim_chars(&v(s)), v(s.trim()));
        let mut w = v(s);
        trim_end_in_place(&mut w);
        assert_eq!(w, v(s.trim_end()));
    }
}

#[test]
fn cut_last_word_keeps_through_last_space() {
    let mut w = v("hello big world");
    cut_last_word_in_place(&mut w);
    assert_eq!(w, v("hello big "));
    let mut w = v("single");
    cut_last_word_in_place(&mut w);
    assert_eq!(w, v(""));
    let mut w = v("ends with ");
    cut_last_word_in_place(&mut w);
    assert_eq!(w, v("ends with "));
}

#[test]
fn chars_and_strings_round_trip() {
    let s = "h\u{e9}llo \u{1f600}";
    assert_eq!(chars_of(s), v(s));
    assert_eq!(string_of(&v(s)), s.to_string());
    assert_eq!(string_of(&Vec::new()), String::new());
}

#[test]
fn str_lt_agrees_with_string_order() {
    let words = ["", "a", "ab", "b", "B", "\u{e9}", "e", "\u{1f600}", "\u{ffff}", "aa", "a b", "zz"];
    for a in words.iter() {
        for b in words.iter() {
            assert_eq!(str_lt(a, b), a.to_string() < b.to_string(), "{:?} {:?}", a, b);
        }
    }
}
