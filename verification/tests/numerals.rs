use quell_machine::numerals::{
    decode_ch_74, decode_digits, decode_num_62, decode_num_74, encode_ch_62, encode_num_62,
    encode_num_s64, read_num_s64,
};
use quell_machine::text::{is_whitespace, split_fields, to_chars, to_text, trim};

fn chars(s: &str) -> Vec<char> {
    s.chars().collect()
}

#[test]
fn numbers_with_62_digits() {
    assert_eq!(encode_num_62(0), "");
    assert_eq!(encode_num_62(9), "9");
    assert_eq!(encode_num_62(10), "a");
    assert_eq!(encode_num_62(35), "z");
    assert_eq!(encode_num_62(36), "A");
    assert_eq!(encode_num_62(61), "Z");
    assert_eq!(encode_num_62(62), "10");
    assert_eq!(encode_num_62(3843), "ZZ");
    assert_eq!(encode_num_62(238327), "ZZZ");
    assert_eq!(decode_num_62(&chars("")), Some(0));
    assert_eq!(decode_num_62(&chars("Z")), Some(61));
    assert_eq!(decode_num_62(&chars("10")), Some(62));
    assert_eq!(decode_num_62(&chars("0010")), Some(62));
    assert_eq!(decode_num_62(&chars("ZZZ")), Some(238327));
    assert_eq!(decode_num_62(&chars("1!")), None);
    assert_eq!(decode_num_62(&chars("1 ")), None);
    assert_eq!(decode_num_62(&chars("zzzzzzzzzzzzzzzzz")), Some(usize::MAX));
    for n in [1usize, 61, 62, 63, 1000, 123456789, usize::MAX] {
        assert_eq!(decode_num_62(&chars(&encode_num_62(n))), Some(n));
    }
    assert_eq!(encode_ch_62(0), '0');
    assert_eq!(encode_ch_62(37), 'B');
}

#[test]
fn numbers_with_74_digits() {
    let key = "0123456789abcdefghijklmnopqrstuvwxyzABCDEFGHIJKLMNOPQRSTUVWXYZ!$%&+-.=?^{}";
    for (value, ch) in key.chars().enumerate() {
        assert_eq!(decode_ch_74(ch), Some(value));
    }
    assert_eq!(decode_ch_74('('), None);
    assert_eq!(decode_ch_74(')'), None);
    assert_eq!(decode_ch_74(';'), None);
    assert_eq!(decode_ch_74('\u{e9}'), None);
    assert_eq!(decode_num_74(&chars("}")), Some(73));
    assert_eq!(decode_num_74(&chars("10")), Some(74));
    assert_eq!(decode_num_74(&chars("!}")), Some(62 * 74 + 73));
    assert_eq!(decode_num_74(&chars("1(")), None);
    assert_eq!(decode_digits(&chars("xx12yy"), 2, 4, 74), Some(76));
    assert_eq!(decode_digits(&chars("xx12yy"), 2, 2, 74), Some(0));
    assert_eq!(decode_digits(&chars("19"), 0, 2, 4), None);
}

#[test]
fn byte_numbers() {
    assert_eq!(encode_num_s64(0), vec![0u8]);
    assert_eq!(encode_num_s64(250), vec![0xfau8]);
    assert_eq!(encode_num_s64(251), vec![0xfbu8, 0]);
    assert_eq!(encode_num_s64(4 * 251 + 7), vec![0xfeu8, 7]);
    assert_eq!(encode_num_s64(5 * 251), vec![0xfbu8, 0xfb, 0]);
    assert_eq!(encode_num_s64(8 * 251 + 250), vec![0xfbu8, 0xfe, 250]);
    assert_eq!(read_num_s64(&[0], 0), Some((0, 1)));
    assert_eq!(read_num_s64(&[9, 0xfb, 0xfe, 250, 3], 1), Some((8 * 251 + 250, 4)));
    assert_eq!(read_num_s64(&[0xfb], 0), None);
    assert_eq!(read_num_s64(&[], 0), None);
    assert_eq!(read_num_s64(&[0xff, 1], 0), None);
    assert_eq!(read_num_s64(&[0xfc, 0xff, 1], 0), None);
    assert_eq!(read_num_s64(&[1], 5), None);
    assert_eq!(read_num_s64(&[0xfe; 40], 0), None);
    let mut long = vec![0xfeu8; 40];
    long.push(1);
    assert_eq!(read_num_s64(&long, 0), Some((usize::MAX, 41)));
    for n in [0usize, 1, 250, 251, 252, 1003, 1004, 1255, 123456789, usize::MAX] {
        let bytes = encode_num_s64(n);
        assert_eq!(read_num_s64(&bytes, 0), Some((n, bytes.len())));
        assert!(!bytes.contains(&0xff));
    }
}

#[test]
fn text_to_characters_and_back() {
    assert_eq!(to_chars("Q1;\u{e9}"), vec!['Q', '1', ';', '\u{e9}']);
    assert_eq!(to_text(&['a', '\u{3000}', 'b']), "a\u{3000}b");
    assert_eq!(to_text(&[]), "");
}

#[test]
fn trimming_is_that_of_str() {
    for text in ["", " ", "a", "  a b \t\n", "\u{a0}x\u{3000}", "\u{85}\u{1680}", "x\u{200b}"] {
        let all = chars(text);
        let (lo, hi) = trim(&all);
        let part: String = all[lo..hi].iter().collect();
        assert_eq!(part, text.trim());
    }
    for code in 0..0x3100u32 {
        if let Some(c) = char::from_u32(code) {
            assert_eq!(is_whitespace(c), c.is_whitespace());
        }
    }
}

#[test]
fn splitting_is_that_of_str() {
    for text in ["", ";", "a", "a;b", "a;;b;", ";;", "Q1;2;1;10;"] {
        let all = chars(text);
        let fields = split_fields(&all, 0, all.len(), ';');
        let parts: Vec<String> = fields.iter().map(|f| all[f.0..f.1].iter().collect()).collect();
        let expected: Vec<String> = text.split(';').map(|p| p.to_string()).collect();
        assert_eq!(parts, expected);
    }
    let all = chars("xx;a;b;yy");
    assert_eq!(split_fields(&all, 3, 6, ';'), vec![(3, 4), (5, 6)]);
}
