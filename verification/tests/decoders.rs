use ev3_project::error::ParseError;
use ev3_project::ev3::parser::{parse_bounds, parse_joints};
use ev3_project::number::{parse_digits, parse_isize, parse_usize};
use ev3_project::text::{
    chars_of, decode_text, position_of, position_of_byte, split, split_words, str_eq, whitespace,
};
use ev3_project::utils::xml::{
    decompose, extract_name_from_qname, parse_attributes, ParsedAttribute, RawAttribute, XmlTag,
};

fn chars(s: &str) -> Vec<char> {
    s.chars().collect()
}

fn raw(key: &[u8], value: &[u8]) -> RawAttribute {
    RawAttribute { key: key.to_vec(), value: value.to_vec() }
}

#[test]
fn bounds_keep_width_and_height() {
    assert_eq!(parse_bounds("10 20 300 40".to_string()), Ok((300, 40)));
    assert_eq!(parse_bounds("0 0 0 0".to_string()), Ok((0, 0)));
    assert_eq!(parse_bounds("52 33 18 18".to_string()), Ok((18, 18)));
}

#[test]
fn bounds_take_leading_zeros_and_a_plus_sign() {
    assert_eq!(parse_bounds("007 +1 +20 0030".to_string()), Ok((20, 30)));
}

#[test]
fn bounds_reach_the_largest_number() {
    let max = usize::MAX.to_string();
    let input = format!("0 0 {} {}", max, max);
    assert_eq!(parse_bounds(input), Ok((usize::MAX, usize::MAX)));
}

#[test]
fn bounds_with_a_number_too_large_fail() {
    let input = format!("0 0 {}0 1", usize::MAX);
    assert_eq!(parse_bounds(input), Err(ParseError::MalformedBounds));
    let origin = format!("{}0 0 1 1", usize::MAX);
    assert_eq!(parse_bounds(origin), Err(ParseError::MalformedBounds));
}

#[test]
fn bounds_with_another_field_count_fail() {
    assert_eq!(parse_bounds("1 2 3".to_string()), Err(ParseError::MalformedBounds));
    assert_eq!(parse_bounds("1 2 3 4 5".to_string()), Err(ParseError::MalformedBounds));
    assert_eq!(parse_bounds("".to_string()), Err(ParseError::MalformedBounds));
    assert_eq!(parse_bounds("7".to_string()), Err(ParseError::MalformedBounds));
}

#[test]
fn bounds_with_a_field_that_is_no_number_fail() {
    assert_eq!(parse_bounds("1 2 x 4".to_string()), Err(ParseError::MalformedBounds));
    assert_eq!(parse_bounds("a 2 3 4".to_string()), Err(ParseError::MalformedBounds));
    assert_eq!(parse_bounds("1 2 3 -4".to_string()), Err(ParseError::MalformedBounds));
    assert_eq!(parse_bounds("1 2 3.5 4".to_string()), Err(ParseError::MalformedBounds));
    assert_eq!(parse_bounds("1 2 + 4".to_string()), Err(ParseError::MalformedBounds));
}

#[test]
fn bounds_take_any_white_space_between_the_fields() {
    assert_eq!(parse_bounds("0 0  7 9".to_string()), Ok((7, 9)));
    assert_eq!(parse_bounds("1  2 3 4".to_string()), Ok((3, 4)));
    assert_eq!(parse_bounds("1 2 3 4 ".to_string()), Ok((3, 4)));
    assert_eq!(parse_bounds(" 1 2 3 4".to_string()), Ok((3, 4)));
    assert_eq!(parse_bounds("1\t2\t3\t4".to_string()), Ok((3, 4)));
    assert_eq!(parse_bounds("\n1\t 2\u{a0}30\u{3000}\u{2003}40\r\n".to_string()), Ok((30, 40)));
    assert_eq!(parse_bounds("   ".to_string()), Err(ParseError::MalformedBounds));
    assert_eq!(parse_bounds("1 2 3\u{200b}4".to_string()), Err(ParseError::MalformedBounds));
    assert_eq!(parse_bounds("1 2 3 4 \t5".to_string()), Err(ParseError::MalformedBounds));
}

#[test]
fn white_space_is_what_the_standard_library_takes_for_it() {
    for code in 0..=0x10ffffu32 {
        if let Some(c) = char::from_u32(code) {
            assert_eq!(whitespace(c), c.is_whitespace(), "{:x}", code);
        }
    }
}

#[test]
fn words_between_white_space() {
    assert_eq!(split_words(&chars("  ab \t c\n")), vec![(2, 4), (7, 8)]);
    assert_eq!(split_words(&chars("abc")), vec![(0, 3)]);
    assert_eq!(split_words(&chars("")), vec![]);
    assert_eq!(split_words(&chars(" \t ")), vec![]);
    assert_eq!(split_words(&chars("a b")), vec![(0, 1), (2, 3)]);
}

fn split_and_parse(input: &str) -> Result<(usize, usize), ParseError> {
    let fields: Vec<Option<usize>> = input.split_whitespace().map(|field| field.parse().ok()).collect();
    if fields.len() == 4 && fields.iter().all(|field| field.is_some()) {
        Ok((fields[2].unwrap(), fields[3].unwrap()))
    } else {
        Err(ParseError::MalformedBounds)
    }
}

fn strings_over(alphabet: &[char], length: usize) -> Vec<String> {
    let mut all = vec![String::new()];
    let mut last = vec![String::new()];
    for _ in 0..length {
        let mut next = Vec::new();
        for s in &last {
            for c in alphabet {
                let mut longer = s.clone();
                longer.push(*c);
                next.push(longer);
            }
        }
        all.extend(next.iter().cloned());
        last = next;
    }
    all
}

#[test]
fn bounds_agree_with_splitting_and_parsing() {
    for input in strings_over(&['0', '7', ' ', '\t', '+', 'x'], 7) {
        assert_eq!(parse_bounds(input.clone()), split_and_parse(&input), "{:?}", input);
    }
    for input in [
        "1 2 3 4",
        "10 20 30 40",
        "1 2 3 18446744073709551615",
        "1 2 3 18446744073709551616",
        "é 2 3 4",
        "1 2 3 -4",
        "1\u{2028}2\u{85}3\u{1680}4",
    ] {
        assert_eq!(parse_bounds(input.to_string()), split_and_parse(input), "{:?}", input);
    }
}

#[test]
fn numbers_agree_with_the_standard_library_on_short_strings() {
    for input in strings_over(&['0', '1', '9', '+', '-', ' ', 'a'], 5) {
        assert_eq!(parse_usize(&chars(&input)), input.parse::<usize>().ok(), "{:?}", input);
        assert_eq!(parse_isize(&chars(&input)), input.parse::<isize>().ok(), "{:?}", input);
    }
}

#[test]
fn bounds_give_the_same_twice() {
    let first = parse_bounds("1 2 3 4".to_string());
    let bad = parse_bounds("1 2 3".to_string());
    let second = parse_bounds("1 2 3 4".to_string());
    assert_eq!(first, second);
    assert_eq!(bad, parse_bounds("1 2 3".to_string()));
}

#[test]
fn joints_of_a_wire() {
    let r = parse_joints("N(a:SequenceIn) N(b:SequenceOut) H(c:Bend)".to_string());
    assert_eq!(r, Ok(("a".to_string(), "b".to_string())));
}

#[test]
fn joints_in_the_other_order() {
    let r = parse_joints("N(n1:SequenceOut) N(n2:SequenceIn)".to_string());
    assert_eq!(r, Ok(("n2".to_string(), "n1".to_string())));
}

#[test]
fn joints_pass_over_other_kinds() {
    let r = parse_joints("h(12) N(a:SequenceIn) w N(b:SequenceOut) H(c:SequenceIn)".to_string());
    assert_eq!(r, Ok(("a".to_string(), "b".to_string())));
}

#[test]
fn joints_with_two_outputs_and_no_input_fail() {
    let r = parse_joints("N(a:SequenceOut) N(b:SequenceOut)".to_string());
    assert_eq!(r, Err(ParseError::MalformedJoints));
}

#[test]
fn joints_with_a_role_twice_fail() {
    let r = parse_joints("N(a:SequenceIn) N(b:SequenceOut) N(c:SequenceIn)".to_string());
    assert_eq!(r, Err(ParseError::MalformedJoints));
    let r = parse_joints("N(a:SequenceIn) N(b:SequenceOut) N(c:SequenceOut)".to_string());
    assert_eq!(r, Err(ParseError::MalformedJoints));
}

#[test]
fn joints_with_a_missing_role_fail() {
    assert_eq!(parse_joints("N(a:SequenceIn)".to_string()), Err(ParseError::MalformedJoints));
    assert_eq!(parse_joints("N(b:SequenceOut)".to_string()), Err(ParseError::MalformedJoints));
    assert_eq!(parse_joints("H(c:Bend)".to_string()), Err(ParseError::MalformedJoints));
}

#[test]
fn joints_with_another_role_fail() {
    let r = parse_joints("N(a:SequenceIn) N(b:SequenceOut) N(c:Bend)".to_string());
    assert_eq!(r, Err(ParseError::MalformedJoints));
    let r = parse_joints("N(a:sequencein) N(b:SequenceOut)".to_string());
    assert_eq!(r, Err(ParseError::MalformedJoints));
}

#[test]
fn joints_that_are_no_tokens_fail() {
    assert_eq!(parse_joints("".to_string()), Err(ParseError::MalformedJoints));
    assert_eq!(parse_joints("N".to_string()), Err(ParseError::MalformedJoints));
    assert_eq!(parse_joints("N(a)".to_string()), Err(ParseError::MalformedJoints));
    assert_eq!(parse_joints("N(a:SequenceIn".to_string()), Err(ParseError::MalformedJoints));
    assert_eq!(parse_joints("N:SequenceIn)".to_string()), Err(ParseError::MalformedJoints));
    assert_eq!(parse_joints("N(a)SequenceIn:".to_string()), Err(ParseError::MalformedJoints));
    let r = parse_joints("N(a:SequenceIn)  N(b:SequenceOut)".to_string());
    assert_eq!(r, Err(ParseError::MalformedJoints));
}

#[test]
fn joints_take_an_empty_id_and_what_follows_the_bracket() {
    let r = parse_joints("N(:SequenceIn) N(b:SequenceOut)tail".to_string());
    assert_eq!(r, Ok(("".to_string(), "b".to_string())));
}

#[test]
fn joints_give_the_same_twice() {
    let first = parse_joints("N(a:SequenceIn) N(b:SequenceOut)".to_string());
    let other = parse_joints("N(x:SequenceOut) N(y:SequenceIn)".to_string());
    let second = parse_joints("N(a:SequenceIn) N(b:SequenceOut)".to_string());
    assert_eq!(first, second);
    assert_eq!(other, Ok(("y".to_string(), "x".to_string())));
}

#[test]
fn unsigned_numbers() {
    assert_eq!(parse_usize(&chars("0")), Some(0));
    assert_eq!(parse_usize(&chars("75")), Some(75));
    assert_eq!(parse_usize(&chars("+75")), Some(75));
    assert_eq!(parse_usize(&chars("00012")), Some(12));
    assert_eq!(parse_usize(&chars(&usize::MAX.to_string())), Some(usize::MAX));
    assert_eq!(parse_usize(&chars("")), None);
    assert_eq!(parse_usize(&chars("+")), None);
    assert_eq!(parse_usize(&chars("-1")), None);
    assert_eq!(parse_usize(&chars("1 ")), None);
    assert_eq!(parse_usize(&chars("++1")), None);
    assert_eq!(parse_usize(&chars("12a")), None);
    assert_eq!(parse_usize(&chars("18446744073709551616")), None);
    assert_eq!(parse_usize(&chars("99999999999999999999999")), None);
}

#[test]
fn unsigned_numbers_agree_with_the_standard_library() {
    for s in ["0", "1", "+1", "-0", "", "+", "-", "007", "4294967295", "4294967296", "1e3", " 1", "١"] {
        assert_eq!(parse_usize(&chars(s)), s.parse::<usize>().ok(), "{}", s);
        assert_eq!(parse_isize(&chars(s)), s.parse::<isize>().ok(), "{}", s);
    }
}

#[test]
fn digits_without_a_sign() {
    assert_eq!(parse_digits(&chars("2014")), Some(2014));
    assert_eq!(parse_digits(&chars("")), Some(0));
    assert_eq!(parse_digits(&chars("000")), Some(0));
    assert_eq!(parse_digits(&chars("+1")), None);
    assert_eq!(parse_digits(&chars("1x")), None);
    assert_eq!(parse_digits(&chars(&usize::MAX.to_string())), Some(usize::MAX));
    assert_eq!(parse_digits(&chars(&format!("{}1", usize::MAX))), None);
    assert_eq!(parse_digits(&chars(&format!("1{}", usize::MAX))), None);
}

#[test]
fn signed_numbers() {
    assert_eq!(parse_isize(&chars("-50")), Some(-50));
    assert_eq!(parse_isize(&chars("50")), Some(50));
    assert_eq!(parse_isize(&chars("+50")), Some(50));
    assert_eq!(parse_isize(&chars("-0")), Some(0));
    assert_eq!(parse_isize(&chars(&isize::MAX.to_string())), Some(isize::MAX));
    assert_eq!(parse_isize(&chars(&isize::MIN.to_string())), Some(isize::MIN));
    assert_eq!(parse_isize(&chars("9223372036854775808")), None);
    assert_eq!(parse_isize(&chars("-9223372036854775809")), None);
    assert_eq!(parse_isize(&chars("-")), None);
    assert_eq!(parse_isize(&chars("--1")), None);
    assert_eq!(parse_isize(&chars("-+1")), None);
    assert_eq!(parse_isize(&chars("")), None);
}

#[test]
fn characters_and_equality_of_strings() {
    assert_eq!(chars_of("héllo"), vec!['h', 'é', 'l', 'l', 'o']);
    assert_eq!(chars_of(""), Vec::<char>::new());
    assert!(str_eq("Wire", "Wire"));
    assert!(!str_eq("Wire", "wire"));
    assert!(!str_eq("Wire", "Wires"));
    assert!(str_eq("", ""));
}

#[test]
fn fields_between_separators() {
    assert_eq!(split(&chars("a bc  d"), ' '), vec![(0, 1), (2, 4), (5, 5), (6, 7)]);
    assert_eq!(split(&chars(""), ' '), vec![(0, 0)]);
    assert_eq!(split(&chars(" "), ' '), vec![(0, 0), (1, 1)]);
    assert_eq!(position_of(&chars("ab:c:"), ':'), 2);
    assert_eq!(position_of(&chars("abc"), ':'), 3);
}

#[test]
fn text_must_be_utf8() {
    assert_eq!(decode_text(b"Bounds"), Some("Bounds".to_string()));
    assert_eq!(decode_text("grün".as_bytes()), Some("grün".to_string()));
    assert_eq!(decode_text(b""), Some(String::new()));
    assert_eq!(decode_text(&[0x66, 0xff, 0x6f]), None);
    assert_eq!(decode_text(&[0xc3]), None);
}

#[test]
fn names_are_cut_at_the_first_colon() {
    assert_eq!(extract_name_from_qname(b"Terminal"), Ok(("Terminal".to_string(), None)));
    assert_eq!(extract_name_from_qname(b"a:b"), Ok(("b".to_string(), Some("a".to_string()))));
    assert_eq!(extract_name_from_qname(b"a:b:c"), Ok(("b:c".to_string(), Some("a".to_string()))));
    assert_eq!(extract_name_from_qname(b":b"), Ok(("b".to_string(), Some(String::new()))));
    assert_eq!(extract_name_from_qname(b"a:"), Ok((String::new(), Some("a".to_string()))));
    assert_eq!(extract_name_from_qname(b""), Ok((String::new(), None)));
}

#[test]
fn qualified_names_are_cut_into_bytes() {
    assert_eq!(decompose(b"Terminal"), (&b"Terminal"[..], None));
    assert_eq!(decompose(b"a:b"), (&b"b"[..], Some(&b"a"[..])));
    assert_eq!(decompose(b"a:b:c"), (&b"b:c"[..], Some(&b"a"[..])));
    assert_eq!(decompose(b":"), (&b""[..], Some(&b""[..])));
    assert_eq!(decompose(b""), (&b""[..], None));
    assert_eq!(decompose(&[0xff, b':', 0xfe]), (&[0xfe][..], Some(&[0xff][..])));
    assert_eq!(position_of_byte(b"ab:c:", b':'), 2);
    assert_eq!(position_of_byte(b"abc", b':'), 3);
    assert_eq!(position_of_byte(b"", b':'), 0);
}

#[test]
fn names_must_be_utf8() {
    assert_eq!(extract_name_from_qname(&[0xff]), Err(ParseError::InvalidEncoding));
    assert_eq!(extract_name_from_qname(&[0xff, b':', b'a']), Err(ParseError::InvalidEncoding));
    assert_eq!(extract_name_from_qname(&[b'a', b':', 0xff]), Err(ParseError::InvalidEncoding));
}

#[test]
fn attributes_become_text_in_their_order() {
    let tag = XmlTag {
        name: b"Terminal".to_vec(),
        attributes: vec![raw(b"Id", b"SequenceOut"), raw(b"x:Wire", b"w1"), raw(b"Odd", b"")],
    };
    let parsed = parse_attributes(&tag).unwrap();
    assert_eq!(
        parsed,
        vec![
            ParsedAttribute { key: ("Id".to_string(), None), value: "SequenceOut".to_string() },
            ParsedAttribute { key: ("Wire".to_string(), Some("x".to_string())), value: "w1".to_string() },
            ParsedAttribute { key: ("Odd".to_string(), None), value: String::new() },
        ]
    );
    let none = XmlTag { name: b"Terminal".to_vec(), attributes: vec![] };
    assert_eq!(parse_attributes(&none), Ok(vec![]));
}

#[test]
fn attributes_must_be_utf8() {
    let value = XmlTag { name: b"T".to_vec(), attributes: vec![raw(b"Id", b"a"), raw(b"Wire", &[0xc0])] };
    assert_eq!(parse_attributes(&value), Err(ParseError::InvalidEncoding));
    let key = XmlTag { name: b"T".to_vec(), attributes: vec![raw(&[0x80], b"a")] };
    assert_eq!(parse_attributes(&key), Err(ParseError::InvalidEncoding));
    assert_eq!(ParsedAttribute::parse(&raw(&[b'p', 0xfe, b':', b'a'], b"a")), Err(ParseError::InvalidEncoding));
}

#[test]
fn attributes_give_the_same_twice() {
    let tag = XmlTag { name: b"T".to_vec(), attributes: vec![raw(b"Id", b"n1")] };
    let first = parse_attributes(&tag);
    let bad = parse_attributes(&XmlTag { name: b"T".to_vec(), attributes: vec![raw(b"Id", &[0xff])] });
    let second = parse_attributes(&tag);
    assert_eq!(first, second);
    assert_eq!(bad, Err(ParseError::InvalidEncoding));
}
