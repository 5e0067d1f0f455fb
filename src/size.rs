use vstd::prelude::*;
use vstd::string::*;

verus! {

/// A decimal digit.
pub open spec fn is_digit(c: char) -> bool {
    '0' <= c && c <= '9'
}

/// The value of a decimal digit.
pub open spec fn digit_value(c: char) -> nat {
    (c as u32 - '0' as u32) as nat
}

/// A unit letter: k, m, g or t, in either case.
pub open spec fn is_unit(c: char) -> bool {
    c == 'k' || c == 'K' || c == 'm' || c == 'M' || c == 'g' || c == 'G' || c == 't' || c == 'T'
}

/// The multiplier that a trailing character gives a numeral: a power of 1024 for a
/// unit letter, 1 for anything else.
pub open spec fn unit_of(c: char) -> nat {
    if c == 'k' || c == 'K' {
        1024
    } else if c == 'm' || c == 'M' {
        1024 * 1024
    } else if c == 'g' || c == 'G' {
        1024 * 1024 * 1024
    } else if c == 't' || c == 'T' {
        1024 * 1024 * 1024 * 1024
    } else {
        1
    }
}

pub open spec fn all_digits(s: Seq<char>) -> bool {
    forall|i: int| 0 <= i < s.len() ==> is_digit(#[trigger] s[i])
}

/// The value of a string of decimal digits.
pub open spec fn decimal_value(s: Seq<char>) -> nat
    decreases s.len(),
{
    if s.len() == 0 {
        0
    } else {
        decimal_value(s.drop_last()) * 10 + digit_value(s.last())
    }
}

/// A numeral without its unit letter, if it has one.
pub open spec fn digits_of(s: Seq<char>) -> Seq<char> {
    if s.len() > 0 && is_unit(s.last()) {
        s.drop_last()
    } else {
        s
    }
}

/// A size numeral: one or more decimal digits, then at most one unit letter.
pub open spec fn is_numeral(s: Seq<char>) -> bool {
    digits_of(s).len() > 0 && all_digits(digits_of(s))
}

/// The number of bytes that a size numeral stands for.
pub open spec fn numeral_value(s: Seq<char>) -> nat {
    decimal_value(digits_of(s)) * unit_of(s.last())
}

/// A size numeral whose value fits in an `i64`.
pub open spec fn numeral_fits(s: Seq<char>) -> bool {
    is_numeral(s) && numeral_value(s) <= i64::MAX
}

proof fn lemma_decimal_prefix(s: Seq<char>, k: int)
    requires
        all_digits(s),
        0 <= k <= s.len(),
    ensures
        decimal_value(s.subrange(0, k)) <= decimal_value(s),
    decreases s.len(),
{
    if k < s.len() {
        let p = s.drop_last();
        assert(all_digits(p)) by {
            assert forall|i: int| 0 <= i < p.len() implies is_digit(#[trigger] p[i]) by {
                assert(p[i] == s[i]);
            }
        }
        lemma_decimal_prefix(p, k);
        assert(p.subrange(0, k) =~= s.subrange(0, k));
    } else {
        assert(s.subrange(0, k) =~= s);
    }
}

/// The characters of a string, one by one.
pub fn chars_of(s: &str) -> (r: Vec<char>)
    ensures
        r@ == s@,
{
    let n = s.unicode_len();
    let mut r: Vec<char> = Vec::new();
    let mut i: usize = 0;
    while i < n
        invariant
            n == s@.len(),
            i <= n,
            r@ == s@.subrange(0, i as int),
        decreases n - i,
    {
        r.push(s.get_char(i));
        i += 1;
        assert(r@ =~= s@.subrange(0, i as int));
    }
    assert(r@ =~= s@);
    r
}

fn is_unit_char(c: char) -> (r: bool)
    ensures
        r == is_unit(c),
{
    c == 'k' || c == 'K' || c == 'm' || c == 'M' || c == 'g' || c == 'G' || c == 't' || c == 'T'
}

fn unit_factor(c: char) -> (r: i64)
    ensures
        r == unit_of(c),
        r >= 1,
{
    if c == 'k' || c == 'K' {
        1024
    } else if c == 'm' || c == 'M' {
        1024 * 1024
    } else if c == 'g' || c == 'G' {
        1024 * 1024 * 1024
    } else if c == 't' || c == 'T' {
        1024 * 1024 * 1024 * 1024
    } else {
        1
    }
}

/// Whether `t` is a size numeral.
pub fn is_size_numeral(t: &Vec<char>) -> (r: bool)
    ensures
        r == is_numeral(t@),
{
    let n = t.len();
    if n == 0 {
        return false;
    }
    let end: usize = if is_unit_char(t[n - 1]) {
        n - 1
    } else {
        n
    };
    assert(digits_of(t@) =~= t@.subrange(0, end as int));
    if end == 0 {
        return false;
    }
    let mut i: usize = 0;
    while i < end
        invariant
            i <= end <= n == t.len(),
            digits_of(t@) =~= t@.subrange(0, end as int),
            forall|j: int| 0 <= j < i ==> is_digit(#[trigger] t@[j]),
        decreases end - i,
    {
        if !('0' <= t[i] && t[i] <= '9') {
            assert(!is_digit(digits_of(t@)[i as int]));
            return false;
        }
        i += 1;
    }
    assert(all_digits(digits_of(t@)));
    true
}

/// The value of the decimal digits `t[..end]`, or `None` where it exceeds `i64::MAX`.
fn read_decimal(t: &Vec<char>, end: usize) -> (r: Option<i64>)
    requires
        end <= t.len(),
        all_digits(t@.subrange(0, end as int)),
    ensures
        r is Some <==> decimal_value(t@.subrange(0, end as int)) <= i64::MAX,
        r is Some ==> r->0 == decimal_value(t@.subrange(0, end as int)),
{
    let ghost s = t@.subrange(0, end as int);
    let mut v: i64 = 0;
    let mut i: usize = 0;
    assert(s.subrange(0, 0) =~= Seq::<char>::empty());
    while i < end
        invariant
            i <= end <= t.len(),
            s == t@.subrange(0, end as int),
            all_digits(s),
            0 <= v,
            v == decimal_value(s.subrange(0, i as int)),
        decreases end - i,
    {
        assert(is_digit(s[i as int]));
        let d: i64 = (t[i] as u32 - '0' as u32) as i64;
        assert(s.subrange(0, i + 1).drop_last() =~= s.subrange(0, i as int));
        assert(0 <= d <= 9);
        if v > (i64::MAX - d) / 10 {
            assert(v * 10 + d > i64::MAX) by (nonlinear_arith)
                requires
                    v > (i64::MAX - d) / 10,
                    0 <= d <= 9,
            ;
            proof {
                lemma_decimal_prefix(s, i + 1);
            }
            return None;
        }
        assert(v * 10 + d <= i64::MAX) by (nonlinear_arith)
            requires
                v <= (i64::MAX - d) / 10,
                0 <= v,
                0 <= d <= 9,
        ;
        v = v * 10 + d;
        i += 1;
    }
    assert(s.subrange(0, end as int) =~= s);
    Some(v)
}

/// The value of the size numeral `t`, or `None` where it exceeds `i64::MAX`.
fn read_numeral(t: &Vec<char>) -> (r: Option<i64>)
    requires
        is_numeral(t@),
    ensures
        r is Some <==> numeral_value(t@) <= i64::MAX,
        r is Some ==> r->0 == numeral_value(t@),
{
    let n = t.len();
    let last = t[n - 1];
    let end: usize = if is_unit_char(last) {
        n - 1
    } else {
        n
    };
    let unit = unit_factor(last);
    assert(digits_of(t@) =~= t@.subrange(0, end as int));
    assert(!is_unit(last) ==> unit == 1);
    match read_decimal(t, end) {
        None => {
            let ghost dv = decimal_value(digits_of(t@));
            assert(dv * unit >= dv) by (nonlinear_arith)
                requires
                    unit >= 1,
                    dv >= 0,
            ;
            None
        },
        Some(v) => {
            if v > i64::MAX / unit {
                assert(v * unit > i64::MAX) by (nonlinear_arith)
                    requires
                        v > i64::MAX / unit,
                        unit >= 1,
                ;
                None
            } else {
                assert(0 <= v * unit <= i64::MAX) by (nonlinear_arith)
                    requires
                        0 <= v <= i64::MAX / unit,
                        unit >= 1,
                ;
                Some(v * unit)
            }
        },
    }
}

/// The pieces of `s` between occurrences of `sep`, in order: one more than there are
/// separators.
pub open spec fn split(s: Seq<char>, sep: char) -> Seq<Seq<char>>
    decreases s.len(),
{
    if s.len() == 0 {
        seq![Seq::<char>::empty()]
    } else {
        let p = split(s.drop_last(), sep);
        if s.last() == sep {
            p.push(Seq::<char>::empty())
        } else {
            p.update(p.len() - 1, p.last().push(s.last()))
        }
    }
}

/// Cuts `s` at every occurrence of `sep`.
pub fn split_chars(s: &Vec<char>, sep: char) -> (r: Vec<Vec<char>>)
    ensures
        r.deep_view() == split(s@, sep),
{
    let mut pieces: Vec<Vec<char>> = Vec::new();
    let mut cur: Vec<char> = Vec::new();
    let mut i: usize = 0;
    assert(s@.subrange(0, 0) =~= Seq::<char>::empty());
    assert(pieces.deep_view().push(cur@) =~= split(s@.subrange(0, 0), sep));
    while i < s.len()
        invariant
            i <= s.len(),
            pieces.deep_view().push(cur@) == split(s@.subrange(0, i as int), sep),
        decreases s.len() - i,
    {
        let ghost before = pieces.deep_view().push(cur@);
        assert(s@.subrange(0, i + 1).drop_last() =~= s@.subrange(0, i as int));
        let c = s[i];
        if c == sep {
            assert(cur.deep_view() =~= cur@);
            pieces.push(cur);
            cur = Vec::new();
            assert(pieces.deep_view().push(cur@) =~= before.push(Seq::<char>::empty()));
        } else {
            cur.push(c);
            assert(pieces.deep_view().push(cur@) =~= before.update(
                before.len() - 1,
                before.last().push(c),
            ));
        }
        i += 1;
    }
    assert(s@.subrange(0, s.len() as int) =~= s@);
    let ghost all = pieces.deep_view().push(cur@);
    assert(cur.deep_view() =~= cur@);
    pieces.push(cur);
    assert(pieces.deep_view() =~= all);
    pieces
}

proof fn lemma_deep_pieces(v: Vec<Vec<char>>)
    ensures
        v.deep_view().len() == v@.len(),
        forall|i: int| 0 <= i < v@.len() ==> v.deep_view()[i] == (#[trigger] v@[i])@,
{
    assert forall|i: int| 0 <= i < v@.len() implies v.deep_view()[i] == (#[trigger] v@[i])@ by {
        assert(v@[i].deep_view() =~= v@[i]@);
    }
}

/// A size argument: nothing, a range of sizes (`A..B`, or a single `A`), or a list.
#[derive(Debug, Clone)]
pub enum SizeArg {
    Empty,
    Range(Option<i64>, Option<i64>),
    List(Vec<i64>),
}

/// What a size argument holds, as mathematical values.
pub enum SizeValue {
    Empty,
    Range(Option<i64>, Option<i64>),
    List(Seq<i64>),
}

impl View for SizeArg {
    type V = SizeValue;

    open spec fn view(&self) -> SizeValue {
        match self {
            SizeArg::Empty => SizeValue::Empty,
            SizeArg::Range(a, b) => SizeValue::Range(*a, *b),
            SizeArg::List(v) => SizeValue::List(v@),
        }
    }
}

/// The text of a range: `A..B`, or `..B` with no lower bound, cut at each `.`.
pub open spec fn is_range_text(dots: Seq<Seq<char>>) -> bool {
    &&& dots.len() == 3
    &&& dots[1].len() == 0
    &&& is_numeral(dots[2])
    &&& (dots[0].len() == 0 || is_numeral(dots[0]))
}

/// The text of a list: two or more numerals, cut at each `,`.
pub open spec fn is_list_text(commas: Seq<Seq<char>>) -> bool {
    commas.len() >= 2 && forall|i: int| 0 <= i < commas.len() ==> is_numeral(#[trigger] commas[i])
}

/// The size argument that a text stands for, or `None` where the text is rejected:
/// a numeral too large for an `i64`, or a range with an upper bound and no lower one.
/// A text of no recognised form stands for the empty argument.
pub open spec fn size_text(s: Seq<char>) -> Option<SizeValue> {
    let dots = split(s, '.');
    let commas = split(s, ',');
    if is_numeral(s) {
        if numeral_fits(s) {
            Some(SizeValue::Range(Some(numeral_value(s) as i64), None))
        } else {
            None
        }
    } else if is_range_text(dots) {
        if dots[0].len() > 0 && numeral_fits(dots[0]) && numeral_fits(dots[2]) {
            Some(
                SizeValue::Range(
                    Some(numeral_value(dots[0]) as i64),
                    Some(numeral_value(dots[2]) as i64),
                ),
            )
        } else {
            None
        }
    } else if is_list_text(commas) {
        if forall|i: int| 0 <= i < commas.len() ==> numeral_fits(#[trigger] commas[i]) {
            Some(SizeValue::List(commas.map_values(|t: Seq<char>| numeral_value(t) as i64)))
        } else {
            None
        }
    } else {
        Some(SizeValue::Empty)
    }
}

impl SizeArg {
    /// Every shape but a range with an upper bound and no lower one.
    pub open spec fn wf(&self) -> bool {
        !(self matches SizeArg::Range(None, Some(_)))
    }

    /// Reads a size numeral: decimal digits and an optional unit letter (k, m, g, t in
    /// either case, for a power of 1024).
    pub fn to_isize(s: &str) -> (r: Result<i64, String>)
        ensures
            r is Ok <==> numeral_fits(s@),
            r is Ok ==> r->Ok_0 == numeral_value(s@),
    {
        let t = chars_of(s);
        if !is_size_numeral(&t) {
            return Err(String::from_str("not a size: ").concat(s));
        }
        match read_numeral(&t) {
            Some(v) => Ok(v),
            None => Err(String::from_str("size too large: ").concat(s)),
        }
    }

    /// Reads a size argument from its text.
    pub fn parse(s: &str) -> (r: Result<SizeArg, String>)
        ensures
            r is Ok <==> size_text(s@) is Some,
            r is Ok ==> size_text(s@) == Some(r->Ok_0@),
            r is Ok ==> r->Ok_0.wf(),
    {
        let t = chars_of(s);
        if is_size_numeral(&t) {
            return match read_numeral(&t) {
                Some(v) => Ok(SizeArg::Range(Some(v), None)),
                None => Err(String::from_str("size too large: ").concat(s)),
            };
        }
        let dots = split_chars(&t, '.');
        proof {
            lemma_deep_pieces(dots);
        }
        if dots.len() == 3 && dots[1].len() == 0 && is_size_numeral(&dots[2]) && (dots[0].len()
            == 0 || is_size_numeral(&dots[0])) {
            if dots[0].len() == 0 {
                return Err(String::from_str("range without a lower bound: ").concat(s));
            }
            let lo = read_numeral(&dots[0]);
            let hi = read_numeral(&dots[2]);
            return match (lo, hi) {
                (Some(a), Some(b)) => Ok(SizeArg::Range(Some(a), Some(b))),
                _ => Err(String::from_str("size too large: ").concat(s)),
            };
        }
        assert(!is_range_text(split(t@, '.')));
        let commas = split_chars(&t, ',');
        let ghost pieces = split(t@, ',');
        proof {
            lemma_deep_pieces(commas);
        }
        if commas.len() < 2 {
            return Ok(SizeArg::Empty);
        }
        let mut i: usize = 0;
        while i < commas.len()
            invariant
                i <= commas.len() == pieces.len(),
                commas.deep_view() == pieces,
                pieces == split(s@, ','),
                t@ == s@,
                !is_numeral(s@),
                !is_range_text(split(s@, '.')),
                forall|j: int| 0 <= j < pieces.len() ==> pieces[j] == (#[trigger] commas@[j])@,
                forall|j: int| 0 <= j < i ==> is_numeral(#[trigger] pieces[j]),
            decreases commas.len() - i,
        {
            if !is_size_numeral(&commas[i]) {
                assert(!is_numeral(pieces[i as int]));
                return Ok(SizeArg::Empty);
            }
            i += 1;
        }
        let mut sizes: Vec<i64> = Vec::new();
        let mut k: usize = 0;
        while k < commas.len()
            invariant
                k <= commas.len() == pieces.len(),
                commas.deep_view() == pieces,
                pieces == split(s@, ','),
                t@ == s@,
                !is_numeral(s@),
                !is_range_text(split(s@, '.')),
                forall|j: int| 0 <= j < pieces.len() ==> pieces[j] == (#[trigger] commas@[j])@,
                is_list_text(pieces),
                sizes@.len() == k,
                forall|j: int| 0 <= j < k ==> numeral_fits(#[trigger] pieces[j]),
                forall|j: int| 0 <= j < k ==> sizes@[j] == numeral_value(#[trigger] pieces[j]) as i64,
            decreases commas.len() - k,
        {
            match read_numeral(&commas[k]) {
                Some(v) => {
                    sizes.push(v);
                },
                None => {
                    assert(!numeral_fits(pieces[k as int]));
                    return Err(String::from_str("size too large: ").concat(s));
                },
            }
            k += 1;
        }
        assert(sizes@ =~= pieces.map_values(|t: Seq<char>| numeral_value(t) as i64));
        Ok(SizeArg::List(sizes))
    }
}

impl std::str::FromStr for SizeArg {
    type Err = String;

    /// Reads a size argument from its text, as `SizeArg::parse` does.
    fn from_str(s: &str) -> (r: Result<SizeArg, String>)
        ensures
            r is Ok <==> size_text(s@) is Some,
            r is Ok ==> size_text(s@) == Some(r->Ok_0@),
            r is Ok ==> r->Ok_0.wf(),
    {
        SizeArg::parse(s)
    }
}

/// The standard block sizes that a range of block sizes is drawn from: 128 B to 100 MiB.
pub open spec fn block_menu() -> Seq<i64> {
    seq![
        128i64,
        256i64,
        512i64,
        1024i64,
        10240i64,
        102400i64,
        1048576i64,
        10485760i64,
        104857600i64,
    ]
}

/// The standard data sizes that a range of data sizes is drawn from: 1 MiB to 100 GiB.
pub open spec fn data_menu() -> Seq<i64> {
    seq![
        1048576i64,
        10485760i64,
        104857600i64,
        1073741824i64,
        10737418240i64,
        107374182400i64,
    ]
}

pub fn block_sizes() -> (r: Vec<i64>)
    ensures
        r@ == block_menu(),
{
    let r = vec![
        128,
        256,
        512,
        1024,
        10 * 1024,
        100 * 1024,
        1024 * 1024,
        10 * 1024 * 1024,
        100 * 1024 * 1024,
    ];
    assert(r@ =~= block_menu());
    r
}

pub fn data_sizes() -> (r: Vec<i64>)
    ensures
        r@ == data_menu(),
{
    let r = vec![
        1024 * 1024,
        10 * 1024 * 1024,
        100 * 1024 * 1024,
        1024 * 1024 * 1024,
        10 * 1024 * 1024 * 1024,
        100 * 1024 * 1024 * 1024,
    ];
    assert(r@ =~= data_menu());
    r
}

pub open spec fn strictly_ascending(s: Seq<i64>) -> bool {
    forall|i: int, j: int| 0 <= i < j < s.len() ==> s[i] < s[j]
}

pub open spec fn between(lo: i64, hi: i64) -> spec_fn(i64) -> bool {
    |v: i64| lo <= v && v <= hi
}

/// The entries of `menu` from `lo` to `hi`, both included, in the menu's order.
pub open spec fn within(menu: Seq<i64>, lo: i64, hi: i64) -> Seq<i64> {
    menu.filter(between(lo, hi))
}

/// The sizes that a size argument stands for, a range being drawn from `menu`.
pub open spec fn expand(a: SizeValue, menu: Seq<i64>) -> Seq<i64> {
    match a {
        SizeValue::Empty => Seq::empty(),
        SizeValue::Range(Some(lo), Some(hi)) => within(menu, lo, hi),
        SizeValue::Range(Some(lo), None) => seq![lo],
        SizeValue::Range(None, _) => Seq::empty(),
        SizeValue::List(v) => v,
    }
}

fn pick_within(menu: &[i64], lo: i64, hi: i64) -> (r: Vec<i64>)
    ensures
        r@ == within(menu@, lo, hi),
{
    let mut r: Vec<i64> = Vec::new();
    let mut i: usize = 0;
    proof {
        reveal(Seq::filter);
        assert(menu@.subrange(0, 0) =~= Seq::<i64>::empty());
    }
    while i < menu.len()
        invariant
            i <= menu.len(),
            r@ == within(menu@.subrange(0, i as int), lo, hi),
        decreases menu.len() - i,
    {
        proof {
            reveal(Seq::filter);
            assert(menu@.subrange(0, i + 1).drop_last() =~= menu@.subrange(0, i as int));
        }
        let v = menu[i];
        if lo <= v && v <= hi {
            r.push(v);
        }
        i += 1;
    }
    assert(menu@.subrange(0, menu.len() as int) =~= menu@);
    r
}

impl SizeArg {
    /// The sizes that this argument stands for, a range being drawn from `menu`.
    pub fn expand(self, menu: &[i64]) -> (r: Vec<i64>)
        requires
            self.wf(),
        ensures
            r@ == expand(self@, menu@),
    {
        match self {
            SizeArg::Empty => Vec::new(),
            SizeArg::List(sizes) => sizes,
            SizeArg::Range(Some(lo), Some(hi)) => pick_within(menu, lo, hi),
            SizeArg::Range(Some(lo), None) => vec![lo],
            SizeArg::Range(None, _) => Vec::new(),
        }
    }

    /// The block sizes that this argument stands for.
    pub fn get_blocks(self) -> (r: Vec<i64>)
        requires
            self.wf(),
        ensures
            r@ == expand(self@, block_menu()),
    {
        let menu = block_sizes();
        self.expand(menu.as_slice())
    }

    /// The data sizes that this argument stands for.
    pub fn get_datas(self) -> (r: Vec<i64>)
        requires
            self.wf(),
        ensures
            r@ == expand(self@, data_menu()),
    {
        let menu = data_sizes();
        self.expand(menu.as_slice())
    }
}

proof fn lemma_within(menu: Seq<i64>, lo: i64, hi: i64)
    requires
        strictly_ascending(menu),
    ensures
        strictly_ascending(within(menu, lo, hi)),
        forall|v: i64| #[trigger]
            within(menu, lo, hi).contains(v) <==> menu.contains(v) && lo <= v <= hi,
    decreases menu.len(),
{
    reveal(Seq::filter);
    if menu.len() > 0 {
        let p = menu.drop_last();
        lemma_within(p, lo, hi);
        let w = within(p, lo, hi);
        assert forall|v: i64| #[trigger] menu.contains(v) <==> p.contains(v) || v == menu.last() by {
            if menu.contains(v) {
                let k = choose|k: int| 0 <= k < menu.len() && menu[k] == v;
                if k < p.len() {
                    assert(p[k] == v);
                }
            }
            if p.contains(v) {
                let k = choose|k: int| 0 <= k < p.len() && p[k] == v;
                assert(menu[k] == v);
            }
            if v == menu.last() {
                assert(menu[menu.len() - 1] == v);
            }
        }
        assert forall|i: int| 0 <= i < w.len() implies w[i] < menu.last() by {
            assert(w.contains(w[i]));
            let k = choose|k: int| 0 <= k < p.len() && p[k] == w[i];
            assert(menu[k] == w[i]);
        }
        if lo <= menu.last() <= hi {
            assert(within(menu, lo, hi) == w.push(menu.last()));
            assert forall|v: i64| #[trigger]
                w.push(menu.last()).contains(v) <==> w.contains(v) || v == menu.last() by {
                if w.push(menu.last()).contains(v) {
                    let k = choose|k: int| 0 <= k < w.len() + 1 && w.push(menu.last())[k] == v;
                    if k < w.len() {
                        assert(w[k] == v);
                    }
                }
                if w.contains(v) {
                    let k = choose|k: int| 0 <= k < w.len() && w[k] == v;
                    assert(w.push(menu.last())[k] == v);
                }
                if v == menu.last() {
                    assert(w.push(menu.last())[w.len() as int] == v);
                }
            }
        } else {
            assert(within(menu, lo, hi) == w);
        }
    } else {
        assert(within(menu, lo, hi) =~= Seq::<i64>::empty());
    }
}

/// Expanding a range `lo..hi` over a strictly ascending menu yields exactly the menu's
/// sizes `v` with `lo <= v <= hi`, strictly ascending and so without repeats; the two
/// standard menus are strictly ascending.
pub proof fn lemma_range_expansion(menu: Seq<i64>, lo: i64, hi: i64)
    requires
        strictly_ascending(menu),
        lo <= hi,
    ensures
        expand(SizeValue::Range(Some(lo), Some(hi)), menu) == within(menu, lo, hi),
        strictly_ascending(expand(SizeValue::Range(Some(lo), Some(hi)), menu)),
        forall|v: i64| #[trigger]
            expand(SizeValue::Range(Some(lo), Some(hi)), menu).contains(v) <==> menu.contains(v)
                && lo <= v <= hi,
        strictly_ascending(block_menu()),
        strictly_ascending(data_menu()),
{
    lemma_within(menu, lo, hi);
}

/// A single size expands to itself alone, whatever the menu.
pub proof fn lemma_single_size(x: i64, menu: Seq<i64>)
    ensures
        expand(SizeValue::Range(Some(x), None), menu) == seq![x],
{
}

} // verus!
