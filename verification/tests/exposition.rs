use sgtop::key::{sort_labels, SeriesKey};
use sgtop::keymap::KeyMap;
use sgtop::labels::{find_block_end, parse_labels, write_block};
use sgtop::metrics::{parse, parse_value, ParseError, BUCKET_CAP};
use sgtop::num::Num;
use sgtop::text::{
    before_suffix, decimal, order_text, same, split_words, starts_with, strip, to_chars, Rank,
};

fn n(v: f64) -> Num {
    Num { bits: v.to_bits() }
}

fn f(v: Num) -> f64 {
    f64::from_bits(v.bits)
}

fn read(s: &str) -> Option<Num> {
    s.parse::<f64>().ok().map(n)
}

fn key(name: &str, labels: &[(&str, &str)]) -> SeriesKey {
    SeriesKey {
        name: name.into(),
        labels: labels
            .iter()
            .map(|(k, v)| (k.to_string(), v.to_string()))
            .collect(),
    }
}

#[test]
fn labels_are_found_by_name_and_value() {
    let k = key("m", &[("a", "x"), ("b", "y")]);
    assert!(k.has_label("a", "x"));
    assert!(k.has_label("b", "y"));
    assert!(!k.has_label("a", "y"));
    assert!(!k.has_label("c", ""));
}

#[test]
fn keys_are_ordered_by_name_then_labels() {
    let bare = key("m", &[]);
    let one = key("m", &[("a", "x")]);
    let two = key("m", &[("a", "x"), ("b", "y")]);
    let other = key("n", &[]);
    assert_eq!(bare.order(&one), Rank::Below);
    assert_eq!(two.order(&one), Rank::Above);
    assert_eq!(two.order(&other), Rank::Below);
    assert_eq!(one.order(&one.clone()), Rank::Same);
    assert_eq!(order_text("ab", "abc"), Rank::Below);
    assert_eq!(order_text("b", "abc"), Rank::Above);
    assert!(same("ab", "ab") && !same("ab", "ac"));
}

#[test]
fn maps_keep_one_value_per_key_in_order() {
    let mut m: KeyMap<Num> = KeyMap::new();
    m.insert(key("b", &[]), n(1.0));
    m.insert(key("a", &[("x", "1")]), n(2.0));
    m.insert(key("a", &[]), n(3.0));
    m.insert(key("b", &[]), n(4.0));
    assert_eq!(m.len(), 3);
    let names: Vec<String> = m.entries.iter().map(|(k, _)| k.show()).collect();
    assert_eq!(names, vec!["a", "a{x=\"1\"}", "b"]);
    assert_eq!(m.get(&key("b", &[])).map(|v| f(*v)), Some(4.0));
    assert!(m.get(&key("c", &[])).is_none());
}

#[test]
fn written_labels_read_back() {
    let labels = vec![
        ("a".to_string(), "say \"hi\"\\\n".to_string()),
        ("b".to_string(), "x}y,z".to_string()),
    ];
    let block = write_block(&labels);
    assert_eq!(block, "a=\"say \\\"hi\\\"\\\\\\n\",b=\"x}y,z\"");
    assert_eq!(parse_labels(&to_chars(&block)), labels);
    let with_end = format!("{block}}} 1");
    assert_eq!(
        find_block_end(&to_chars(&with_end)),
        Some(block.chars().count())
    );
    assert_eq!(find_block_end(&to_chars("a=\"open} 1")), None);
}

#[test]
fn malformed_labels_end_the_list() {
    assert_eq!(parse_labels(&to_chars("")), vec![]);
    assert_eq!(
        parse_labels(&to_chars("a=\"x\", b=y")),
        vec![("a".to_string(), "x".to_string())]
    );
    assert_eq!(
        parse_labels(&to_chars("a=\"\\q\"")),
        vec![("a".to_string(), "q".to_string())]
    );
}

#[test]
fn values_are_read_up_to_the_timestamp() {
    let v = |s: &str| parse_value(&to_chars(s), read).map(f);
    assert_eq!(v(" 4.5 1234567890"), Some(4.5));
    assert_eq!(v("+Inf"), Some(f64::INFINITY));
    assert_eq!(v("Inf"), Some(f64::INFINITY));
    assert_eq!(v("-Inf"), Some(f64::NEG_INFINITY));
    assert!(v("Nan").unwrap().is_nan());
    assert_eq!(v("soon"), None);
    assert_eq!(v("   "), None);
}

#[test]
fn words_and_trimming() {
    let cs = to_chars(" \t a  bc\u{3000}d \r");
    assert_eq!(split_words(&cs), vec!["a", "bc", "d"]);
    assert_eq!(strip(&cs).iter().collect::<String>(), "a  bc\u{3000}d");
    assert!(starts_with(&to_chars("# TYPE x"), "# "));
    assert!(!starts_with(&to_chars("#"), "# "));
    assert_eq!(
        before_suffix(&to_chars("x_sum"), "_sum").map(|b| b.len()),
        Some(1)
    );
    assert!(before_suffix(&to_chars("x_sums"), "_sum").is_none());
    assert_eq!(decimal(0), "0");
    assert_eq!(decimal(1203), "1203");
    assert_eq!(decimal(u64::MAX), u64::MAX.to_string());
}

#[test]
fn histogram_records_need_their_type_line() {
    let s = parse("m_bucket{le=\"1\"} 3\nm_count 3\nm_sum 9\n", read).unwrap();
    assert_eq!(s.hist.len(), 0);
    assert_eq!(s.simple.len(), 3);
    let s = parse(
        "# TYPE m histogram\nm_bucket{le=\"2\"} 5\nm_bucket{le=\"1\"} 3\nm_count 5\nm_sum 9\n",
        read,
    )
    .unwrap();
    assert_eq!(s.simple.len(), 0);
    let h = s.hist.get(&key("m", &[])).unwrap();
    // the ladder is sorted by bound
    assert_eq!(h.le, vec![n(1.0), n(2.0)]);
    assert_eq!(h.counts, vec![n(3.0), n(5.0)]);
    assert_eq!(h.count, 5);
}

#[test]
fn a_later_record_replaces_an_earlier_one() {
    let s = parse("m 1\nm 2\r\nm{a=\"x\"} 3\n", read).unwrap();
    assert_eq!(s.simple.len(), 2);
    assert_eq!(s.gauge("m").map(f), Some(2.0));
    assert_eq!(s.gauge("absent"), None);
}

#[test]
fn unreadable_lines_change_nothing() {
    let base = "m 1\nk{a=\"b\"} 2\n";
    let noisy = "m 1\n\n   \nlonely\nm NaN\nm{a=\"b 7\nk{a=\"b\"} soon\n# HELP m text\nk{a=\"b\"} 2\n";
    let a = parse(base, read).unwrap();
    let b = parse(noisy, read).unwrap();
    assert_eq!(format!("{:?}", a.simple), format!("{:?}", b.simple));
}

#[test]
fn rejections_say_what_is_too_large() {
    let e = ParseError::TooManySeries { count: 20_001 };
    assert_eq!(
        e.message(),
        "endpoint too large: 20001 series (cap 20000)"
    );
    let mut body = String::from("# TYPE h histogram\n");
    for i in 0..=BUCKET_CAP {
        body.push_str(&format!("h_bucket{{k=\"v\",le=\"{i}\"}} 1\n"));
    }
    match parse(&body, read) {
        Err(ParseError::TooManyBuckets { family, count }) => {
            assert_eq!(family, key("h", &[("k", "v")]));
            assert_eq!(count, BUCKET_CAP + 1);
        }
        other => panic!("{other:?}"),
    }
}

#[test]
fn a_record_at_the_end_is_found() {
    let before = "m 1\nk{a=\"b\"} 2";
    let labels = vec![("a".to_string(), "two\nlines, \"}\"".to_string())];
    let body = format!("{before}\nm{{{}}} 7.5", write_block(&labels));
    let s = parse(&body, read).unwrap();
    let written = SeriesKey {
        name: "m".into(),
        labels,
    };
    assert_eq!(s.simple.get(&written).copied().map(f), Some(7.5));
    assert_eq!(s.simple.get(&key("m", &[])).copied().map(f), Some(1.0));
    assert_eq!(
        s.simple.get(&key("k", &[("a", "b")])).copied().map(f),
        Some(2.0)
    );
}

#[test]
fn histogram_records_lose_their_bound_label() {
    let body = "# TYPE m histogram\nm_bucket{a=\"x\",le=\"0.5\"} 4\nm_bucket{a=\"x\"} 9\nm_count{a=\"x\"} 6.9";
    let s = parse(body, read).unwrap();
    let h = s.hist.get(&key("m", &[("a", "x")])).unwrap();
    assert_eq!(h.le, vec![n(0.5)]);
    assert_eq!(h.counts, vec![n(4.0)]);
    assert_eq!(h.count, 6);
}

#[test]
fn the_labels_of_a_series_are_sorted() {
    let s = parse("m{b=\"1\",a=\"2\"} 3\n", read).unwrap();
    assert_eq!(s.simple.len(), 1);
    assert_eq!(s.simple.entries[0].0, key("m", &[("a", "2"), ("b", "1")]));
    assert_eq!(f(s.simple.entries[0].1), 3.0);
    // another order is the same series
    let s = parse("m{b=\"1\",a=\"2\"} 3\nm{a=\"2\",b=\"1\"} 4\n", read).unwrap();
    assert_eq!(s.simple.len(), 1);
    assert_eq!(
        s.simple.get(&key("m", &[("a", "2"), ("b", "1")])).copied().map(f),
        Some(4.0)
    );
    let s = parse(
        "# TYPE h histogram\nh_bucket{z=\"1\",le=\"1\",a=\"2\"} 3\nh_count{a=\"2\",z=\"1\"} 5\n",
        read,
    )
    .unwrap();
    let h = s.hist.get(&key("h", &[("a", "2"), ("z", "1")])).unwrap();
    assert_eq!((h.le.len(), h.count), (1, 5));
}

#[test]
fn labels_are_ordered_by_name_then_value() {
    let labels: Vec<(String, String)> = [("b", "1"), ("a", "2"), ("b", "0"), ("a", "2")]
        .iter()
        .map(|(k, v)| (k.to_string(), v.to_string()))
        .collect();
    let sorted = sort_labels(&labels);
    assert_eq!(
        key("m", &[("a", "2"), ("a", "2"), ("b", "0"), ("b", "1")]).labels,
        sorted
    );
    assert_eq!(sort_labels(&sorted), sorted);
}

#[test]
fn odd_label_names_read_back() {
    let labels = vec![("a\"}b".to_string(), "x".to_string())];
    assert_eq!(parse_labels(&to_chars(&write_block(&labels))), labels);
}

#[test]
fn a_full_histogram_takes_no_record() {
    let mut body = String::from("m 1\nn 2\n# TYPE h histogram\n");
    for i in 0..BUCKET_CAP {
        body.push_str(&format!("h_bucket{{k=\"v\",le=\"{i}\"}} 1\n"));
    }
    assert!(parse(&body, read).is_ok());
    for last in ["h_sum{k=\"v\"} 1", "h_count{k=\"v\"} 1", "h_bucket{le=\"+Inf\",k=\"v\"} 1"] {
        match parse(&format!("{body}{last}\n"), read) {
            Err(ParseError::TooManyBuckets { family, count }) => {
                assert_eq!(family, key("h", &[("k", "v")]));
                assert_eq!(count, BUCKET_CAP + 1);
            }
            other => panic!("{other:?}"),
        }
    }
    // a record of another series of the family is taken
    assert!(parse(&format!("{body}h_count{{k=\"w\"}} 1\n"), read).is_ok());
}
