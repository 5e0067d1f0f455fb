use diskio::size::{block_sizes, chars_of, data_sizes, split_chars, SizeArg};

fn parsed(s: &str) -> SizeArg {
    SizeArg::parse(s).unwrap()
}

#[test]
fn single_numeral_is_a_range_without_upper_bound() {
    assert!(matches!(parsed("4k"), SizeArg::Range(Some(4096), None)));
    assert!(matches!(parsed("512"), SizeArg::Range(Some(512), None)));
}

#[test]
fn units_are_powers_of_1024_in_either_case() {
    assert_eq!(SizeArg::to_isize("1k").unwrap(), 1024);
    assert_eq!(SizeArg::to_isize("1K").unwrap(), 1024);
    assert_eq!(SizeArg::to_isize("3m").unwrap(), 3 * 1024 * 1024);
    assert_eq!(SizeArg::to_isize("2G").unwrap(), 2 * 1024 * 1024 * 1024);
    assert_eq!(SizeArg::to_isize("5t").unwrap(), 5 * 1024 * 1024 * 1024 * 1024);
    assert_eq!(SizeArg::to_isize("12").unwrap(), 12);
}

#[test]
fn non_numerals_are_refused_by_to_isize() {
    assert!(SizeArg::to_isize("").is_err());
    assert!(SizeArg::to_isize("k").is_err());
    assert!(SizeArg::to_isize("1x").is_err());
    assert!(SizeArg::to_isize("-5").is_err());
}

#[test]
fn too_large_numerals_are_errors() {
    assert!(SizeArg::to_isize("9223372036854775807").is_ok());
    assert!(SizeArg::to_isize("9223372036854775808").is_err());
    assert!(SizeArg::to_isize("8388607t").is_ok());
    assert!(SizeArg::to_isize("8388608t").is_err());
    assert!(SizeArg::parse("99999999999999999999").is_err());
    assert!(SizeArg::parse("1k..99999999999999999999").is_err());
    assert!(SizeArg::parse("1,99999999999999999999").is_err());
}

#[test]
fn range_text_parses_both_bounds() {
    assert!(matches!(parsed("2k..20k"), SizeArg::Range(Some(2048), Some(20480))));
}

#[test]
fn range_without_lower_bound_is_rejected() {
    assert!(SizeArg::parse("..4k").is_err());
}

#[test]
fn list_text_parses_every_entry() {
    match parsed("1k,2m,3") {
        SizeArg::List(v) => assert_eq!(v, vec![1024, 2 * 1024 * 1024, 3]),
        other => panic!("unexpected {:?}", other),
    }
}

#[test]
fn unrecognised_text_is_empty() {
    assert!(matches!(parsed(""), SizeArg::Empty));
    assert!(matches!(parsed("abc"), SizeArg::Empty));
    assert!(matches!(parsed("1k.."), SizeArg::Empty));
    assert!(matches!(parsed("1k,,2k"), SizeArg::Empty));
    assert!(matches!(parsed("1k..2k..3k"), SizeArg::Empty));
}

#[test]
fn from_str_agrees_with_parse() {
    let a: SizeArg = "2k..20k".parse().unwrap();
    assert!(matches!(a, SizeArg::Range(Some(2048), Some(20480))));
    let b: Result<SizeArg, String> = "..1k".parse();
    assert!(b.is_err());
}

#[test]
fn range_expands_over_block_menu() {
    let v = parsed("1k..1m").get_blocks();
    assert_eq!(v, vec![1024, 10 * 1024, 100 * 1024, 1024 * 1024]);
    for w in v.windows(2) {
        assert!(w[0] < w[1]);
    }
}

#[test]
fn range_expands_over_data_menu() {
    let v = parsed("1m..1g").get_datas();
    assert_eq!(v, vec![1024 * 1024, 10 * 1024 * 1024, 100 * 1024 * 1024, 1024 * 1024 * 1024]);
}

#[test]
fn range_between_menu_entries_expands_to_nothing() {
    assert_eq!(parsed("129..255").get_blocks(), Vec::<i64>::new());
    assert_eq!(parsed("100g..1t").get_datas(), vec![100 * 1024 * 1024 * 1024]);
}

#[test]
fn range_over_given_menu() {
    let k = 1024;
    let menu = [k, 2 * k, 4 * k, 8 * k, 16 * k, 32 * k];
    assert_eq!(parsed("2k..20k").expand(&menu), vec![2 * k, 4 * k, 8 * k, 16 * k]);
}

#[test]
fn single_value_ignores_the_menu() {
    assert_eq!(parsed("3000").get_blocks(), vec![3000]);
    assert_eq!(parsed("3000").get_datas(), vec![3000]);
    assert_eq!(parsed("7").expand(&[]), vec![7]);
}

#[test]
fn list_is_kept_as_given() {
    assert_eq!(parsed("4k,1k,4k").get_blocks(), vec![4096, 1024, 4096]);
}

#[test]
fn empty_argument_expands_to_nothing() {
    assert_eq!(parsed("").get_blocks(), Vec::<i64>::new());
    assert_eq!(SizeArg::Range(None, None).get_datas(), Vec::<i64>::new());
}

#[test]
fn menus_are_strictly_ascending() {
    for m in [block_sizes(), data_sizes()] {
        for w in m.windows(2) {
            assert!(w[0] < w[1]);
        }
    }
    assert_eq!(block_sizes().len(), 9);
    assert_eq!(data_sizes()[5], 100 * 1024 * 1024 * 1024);
}

#[test]
fn split_cuts_at_each_separator() {
    let t = chars_of("a,,bc,");
    let p = split_chars(&t, ',');
    assert_eq!(p, vec![vec!['a'], vec![], vec!['b', 'c'], vec![]]);
    assert_eq!(split_chars(&Vec::new(), ','), vec![Vec::<char>::new()]);
}

#[test]
fn from_str_reads_every_form() {
    let single: SizeArg = "3000".parse().unwrap();
    assert_eq!(single.get_datas(), vec![3000]);
    assert!(matches!("".parse::<SizeArg>().unwrap(), SizeArg::Empty));
    match "1k,2k,4k".parse::<SizeArg>().unwrap() {
        SizeArg::List(v) => assert_eq!(v, vec![1024, 2048, 4096]),
        other => panic!("unexpected {:?}", other),
    }
    assert!("..20k".parse::<SizeArg>().is_err());
    assert!(matches!("2t".parse::<SizeArg>().unwrap(), SizeArg::Range(Some(2199023255552), None)));
}
