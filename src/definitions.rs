//! The material table: one record per line, `name,#RRGGBB,#RRGGBB`. Lines
//! that start with `#` are comments; `;` is reserved and may not appear.
use vstd::prelude::*;
use vstd::string::StrSliceExecFns;
use vstd::string::StringExecFns;
use crate::cells::{CellType, Palette, color_end, color_start, slot};

verus! {

/// One comma-separated field of a record.
pub struct SectionInfo<'a> {
    pub text: &'a str,
    /// Position of the field within its line, from zero.
    pub section: usize,
    pub line: usize,
}

#[derive(Clone, Copy, Debug, PartialEq, Eq, Structural)]
pub struct RgbColor {
    pub r: u8,
    pub g: u8,
    pub b: u8,
}

#[derive(Clone, Copy, Debug, PartialEq, Eq, Structural)]
pub enum SectionDecodeError {
    NotEnoughSections { last_section: usize },
    String { section: usize },
    Hex { section: usize },
    Boolean { section: usize },
    Float { section: usize },
    Integer { section: usize },
}

#[derive(Clone, Debug, PartialEq, Eq)]
pub enum LineDecodeError {
    BadSection { error: SectionDecodeError, line: usize },
    ContainsBadCharacter { line: usize, pos: usize },
    InconsistentSectionCount { line: usize },
    CouldNotOpenFile(String),
    UnexpectedEOF,
    NoPretextComment,
}

pub open spec fn ascii(c: char) -> bool {
    (c as u32) < 128
}

/// Value of a hexadecimal digit, either case.
pub open spec fn hex_digit(c: char) -> Option<u8> {
    if '0' <= c <= '9' {
        Some((c as u32 - '0' as u32) as u8)
    } else if 'a' <= c <= 'f' {
        Some((c as u32 - 'a' as u32 + 10) as u8)
    } else if 'A' <= c <= 'F' {
        Some((c as u32 - 'A' as u32 + 10) as u8)
    } else {
        None
    }
}

/// Two hexadecimal digits read as a byte; anything else is no byte.
pub open spec fn hex_pair(a: char, b: char) -> Option<u8> {
    match (hex_digit(a), hex_digit(b)) {
        (Some(x), Some(y)) => Some((x * 16 + y) as u8),
        _ => None,
    }
}

/// The colour that a `#RRGGBB` field denotes, if it is one.
pub open spec fn hex_color(t: Seq<char>) -> Option<RgbColor> {
    if t.len() == 7 && t[0] == '#' && (forall|i: int| 0 <= i < 7 ==> ascii(#[trigger] t[i])) {
        match (hex_pair(t[1], t[2]), hex_pair(t[3], t[4]), hex_pair(t[5], t[6])) {
            (Some(r), Some(g), Some(b)) => Some(RgbColor { r, g, b }),
            _ => None,
        }
    } else {
        None
    }
}

/// Upper-case hexadecimal digit of `v < 16`.
pub open spec fn hex_char(v: u8) -> char {
    if v < 10 {
        (v + '0' as u32) as char
    } else {
        (v - 10 + 'A' as u32) as char
    }
}

/// The `#RRGGBB` text of a colour, upper case.
pub open spec fn hex_text(c: RgbColor) -> Seq<char> {
    seq![
        '#',
        hex_char(c.r / 16),
        hex_char(c.r % 16),
        hex_char(c.g / 16),
        hex_char(c.g % 16),
        hex_char(c.b / 16),
        hex_char(c.b % 16),
    ]
}

/// The upper-case hexadecimal digit of `v < 16`, as text.
fn hex_digit_str(v: u8) -> (r: &'static str)
    requires
        v < 16,
    ensures
        r@ == seq![hex_char(v)],
{
    if v == 0 {
        proof {
            reveal_strlit("0");
        }
        "0"
    } else if v == 1 {
        proof {
            reveal_strlit("1");
        }
        "1"
    } else if v == 2 {
        proof {
            reveal_strlit("2");
        }
        "2"
    } else if v == 3 {
        proof {
            reveal_strlit("3");
        }
        "3"
    } else if v == 4 {
        proof {
            reveal_strlit("4");
        }
        "4"
    } else if v == 5 {
        proof {
            reveal_strlit("5");
        }
        "5"
    } else if v == 6 {
        proof {
            reveal_strlit("6");
        }
        "6"
    } else if v == 7 {
        proof {
            reveal_strlit("7");
        }
        "7"
    } else if v == 8 {
        proof {
            reveal_strlit("8");
        }
        "8"
    } else if v == 9 {
        proof {
            reveal_strlit("9");
        }
        "9"
    } else if v == 10 {
        proof {
            reveal_strlit("A");
        }
        "A"
    } else if v == 11 {
        proof {
            reveal_strlit("B");
        }
        "B"
    } else if v == 12 {
        proof {
            reveal_strlit("C");
        }
        "C"
    } else if v == 13 {
        proof {
            reveal_strlit("D");
        }
        "D"
    } else if v == 14 {
        proof {
            reveal_strlit("E");
        }
        "E"
    } else {
        proof {
            reveal_strlit("F");
        }
        "F"
    }
}

/// Appends the two upper-case hexadecimal digits of `b`.
fn push_hex_byte(out: &mut String, b: u8)
    ensures
        final(out)@ == old(out)@ + seq![hex_char(b / 16), hex_char(b % 16)],
{
    out.append(hex_digit_str(b / 16));
    out.append(hex_digit_str(b % 16));
    assert(final(out)@ =~= old(out)@ + seq![hex_char(b / 16), hex_char(b % 16)]);
}

fn hex_digit_exec(c: char) -> (r: Option<u8>)
    ensures
        r == hex_digit(c),
{
    if '0' <= c && c <= '9' {
        Some((c as u32 - '0' as u32) as u8)
    } else if 'a' <= c && c <= 'f' {
        Some((c as u32 - 'a' as u32 + 10) as u8)
    } else if 'A' <= c && c <= 'F' {
        Some((c as u32 - 'A' as u32 + 10) as u8)
    } else {
        None
    }
}

fn hex_pair_exec(a: char, b: char) -> (r: Option<u8>)
    ensures
        r == hex_pair(a, b),
{
    match (hex_digit_exec(a), hex_digit_exec(b)) {
        (Some(x), Some(y)) => Some(x * 16 + y),
        _ => None,
    }
}

/// `a + (b - a) * t / 128`, the quotient rounded toward zero.
pub open spec fn lerp_channel(a: u8, b: u8, t: int) -> u8 {
    let p = (b - a) * t;
    (a + if p >= 0 { p / 128 } else { -((-p) / 128) }) as u8
}

fn lerp_channel_exec(a: u8, b: u8, t: i16) -> (r: u8)
    requires
        0 <= t <= 128,
    ensures
        r == lerp_channel(a, b, t as int),
{
    let d: i32 = b as i32 - a as i32;
    assert(-255 * 128 <= d * t <= 255 * 128) by (nonlinear_arith)
        requires
            d == b - a,
            0 <= t <= 128,
            0 <= a <= 255,
            0 <= b <= 255,
    ;
    let p: i32 = d * t as i32;
    let q: i32 = if p >= 0 {
        p / 128
    } else {
        -((-p) / 128)
    };
    assert(0 <= a + q <= 255) by (nonlinear_arith)
        requires
            p == (b - a) * t,
            0 <= t <= 128,
            0 <= a <= 255,
            0 <= b <= 255,
            p >= 0 ==> q == p / 128,
            p < 0 ==> q == -((-p) / 128),
    {
        if b >= a {
            assert(p <= (b - a) * 128);
        } else {
            assert(-p <= (a - b) * 128);
        }
    }
    (a as i32 + q) as u8
}

impl RgbColor {
    pub fn as_array(&self) -> (r: [u8; 3])
        ensures
            r[0] == self.r,
            r[1] == self.g,
            r[2] == self.b,
    {
        [self.r, self.g, self.b]
    }

    pub fn from_array(rgb: [u8; 3]) -> (r: Self)
        ensures
            r.r == rgb[0],
            r.g == rgb[1],
            r.b == rgb[2],
    {
        Self { r: rgb[0], g: rgb[1], b: rgb[2] }
    }

    /// Reads a `#RRGGBB` field; anything else is a `Hex` error for the field.
    pub fn from_hex(val: SectionInfo) -> (r: Result<Self, SectionDecodeError>)
        ensures
            match hex_color(val.text@) {
                Some(c) => r == Ok::<RgbColor, SectionDecodeError>(c),
                None => r == Err::<RgbColor, SectionDecodeError>(
                    SectionDecodeError::Hex { section: val.section },
                ),
            },
    {
        let t = val.text;
        let err = Err(SectionDecodeError::Hex { section: val.section });
        if t.unicode_len() != 7 {
            return err;
        }
        let mut i: usize = 0;
        while i < 7
            invariant
                t == val.text,
                t@.len() == 7,
                i <= 7,
                forall|j: int| 0 <= j < i ==> ascii(#[trigger] t@[j]),
            decreases 7 - i,
        {
            if t.get_char(i) as u32 >= 128 {
                assert(!ascii(t@[i as int]));
                return Err(SectionDecodeError::Hex { section: val.section });
            }
            i = i + 1;
        }
        if t.get_char(0) != '#' {
            return err;
        }
        let r = hex_pair_exec(t.get_char(1), t.get_char(2));
        let g = hex_pair_exec(t.get_char(3), t.get_char(4));
        let b = hex_pair_exec(t.get_char(5), t.get_char(6));
        match (r, g, b) {
            (Some(r), Some(g), Some(b)) => Ok(RgbColor { r, g, b }),
            _ => err,
        }
    }

    /// The colour as `#RRGGBB`, upper case.
    pub fn to_hex(&self) -> (r: String)
        ensures
            r@ == hex_text(*self),
    {
        let mut out = String::new();
        proof {
            reveal_strlit("#");
        }
        out.append("#");
        push_hex_byte(&mut out, self.r);
        push_hex_byte(&mut out, self.g);
        push_hex_byte(&mut out, self.b);
        assert(out@ =~= hex_text(*self));
        out
    }

    /// The colour `t / 128` of the way from `self` to `other`, each channel
    /// rounded toward `self`.
    pub fn lerp_fast(&self, other: &RgbColor, t: i16) -> (r: RgbColor)
        requires
            0 <= t <= 128,
        ensures
            r.r == lerp_channel(self.r, other.r, t as int),
            r.g == lerp_channel(self.g, other.g, t as int),
            r.b == lerp_channel(self.b, other.b, t as int),
    {
        RgbColor {
            r: lerp_channel_exec(self.r, other.r, t),
            g: lerp_channel_exec(self.g, other.g, t),
            b: lerp_channel_exec(self.b, other.b, t),
        }
    }
}

/// Index of the first `c` at or after `from`, or the length when none.
pub open spec fn find(l: Seq<char>, c: char, from: int) -> int
    decreases l.len() - from,
{
    if from >= l.len() {
        l.len() as int
    } else if l[from] == c {
        from
    } else {
        find(l, c, from + 1)
    }
}

/// Number of commas at or after `from`.
pub open spec fn comma_count(l: Seq<char>, from: int) -> int
    decreases l.len() - from,
{
    if from >= l.len() {
        0
    } else {
        (if l[from] == ',' {
            1int
        } else {
            0int
        }) + comma_count(l, from + 1)
    }
}

/// Number of comma-separated sections of a line.
pub open spec fn section_count(l: Seq<char>) -> int {
    comma_count(l, 0) + 1
}

/// A material record: its name and its two colours.
pub type RecordView = (Seq<char>, RgbColor, RgbColor);

/// The record that a line holds: a name, a start colour and an end colour,
/// in its first three sections; later sections are ignored.
pub open spec fn record(l: Seq<char>) -> Result<RecordView, SectionDecodeError> {
    let c0 = find(l, ',', 0);
    if c0 >= l.len() {
        Err(SectionDecodeError::NotEnoughSections { last_section: 0 })
    } else {
        let c1 = find(l, ',', c0 + 1);
        match hex_color(l.subrange(c0 + 1, c1)) {
            None => Err(SectionDecodeError::Hex { section: 1 }),
            Some(start) => if c1 >= l.len() {
                Err(SectionDecodeError::NotEnoughSections { last_section: 0 })
            } else {
                let c2 = find(l, ',', c1 + 1);
                match hex_color(l.subrange(c1 + 1, c2)) {
                    None => Err(SectionDecodeError::Hex { section: 2 }),
                    Some(end) => Ok((l.subrange(0, c0), start, end)),
                }
            },
        }
    }
}

/// The records of the lines from `i` on, given the section count of the
/// records before (if any): comment lines are skipped; a `;`, a change in
/// section count or a bad record stops the load with its line.
pub open spec fn load(lines: Seq<Seq<char>>, i: int, past: Option<int>) -> Result<
    Seq<RecordView>,
    LineDecodeError,
>
    decreases lines.len() - i,
{
    if i < 0 || i >= lines.len() {
        Ok(Seq::empty())
    } else {
        let l = lines[i];
        let p = find(l, ';', 0);
        if p < l.len() {
            Err(LineDecodeError::ContainsBadCharacter { line: i as usize, pos: p as usize })
        } else if l.len() > 0 && l[0] == '#' {
            load(lines, i + 1, past)
        } else if past.is_some() && past != Some(section_count(l)) {
            Err(LineDecodeError::InconsistentSectionCount { line: i as usize })
        } else {
            match record(l) {
                Err(e) => Err(LineDecodeError::BadSection { error: e, line: i as usize }),
                Ok(d) => prepend(d, load(lines, i + 1, Some(section_count(l)))),
            }
        }
    }
}

pub open spec fn prepend(d: RecordView, r: Result<Seq<RecordView>, LineDecodeError>) -> Result<
    Seq<RecordView>,
    LineDecodeError,
> {
    match r {
        Ok(rest) => Ok(seq![d] + rest),
        Err(e) => Err(e),
    }
}

pub open spec fn prefixed(acc: Seq<RecordView>, r: Result<Seq<RecordView>, LineDecodeError>) -> Result<
    Seq<RecordView>,
    LineDecodeError,
> {
    match r {
        Ok(rest) => Ok(acc + rest),
        Err(e) => Err(e),
    }
}

proof fn lemma_prefixed_prepend(
    acc: Seq<RecordView>,
    d: RecordView,
    r: Result<Seq<RecordView>, LineDecodeError>,
)
    ensures
        prefixed(acc, prepend(d, r)) == prefixed(acc.push(d), r),
{
    match r {
        Ok(rest) => {
            assert(acc + (seq![d] + rest) =~= acc.push(d) + rest);
        },
        Err(_) => {},
    }
}

fn find_char(l: &str, c: char, from: usize) -> (r: usize)
    requires
        from <= l@.len(),
    ensures
        r == find(l@, c, from as int),
        from <= r <= l@.len(),
{
    let n = l.unicode_len();
    let mut i = from;
    while i < n
        invariant
            n == l@.len(),
            from <= i <= n,
            find(l@, c, from as int) == find(l@, c, i as int),
        decreases n - i,
    {
        if l.get_char(i) == c {
            return i;
        }
        i = i + 1;
    }
    i
}

fn count_commas(l: &str) -> (r: usize)
    ensures
        r == comma_count(l@, 0),
        r <= l@.len(),
{
    let n = l.unicode_len();
    let mut count: usize = 0;
    let mut i: usize = 0;
    while i < n
        invariant
            n == l@.len(),
            i <= n,
            count <= i,
            comma_count(l@, 0) == count + comma_count(l@, i as int),
        decreases n - i,
    {
        if l.get_char(i) == ',' {
            count = count + 1;
        }
        i = i + 1;
    }
    count
}

/// A material's name and colour range.
#[derive(Clone, Debug)]
pub struct CellDefinitions {
    pub name: String,
    pub rgb_start: RgbColor,
    pub rgb_end: RgbColor,
}

impl CellDefinitions {
    pub open spec fn view(&self) -> RecordView {
        (self.name@, self.rgb_start, self.rgb_end)
    }

    /// Reads the record on line `line_num`.
    pub fn new(line: &str, line_num: usize) -> (r: Result<Self, SectionDecodeError>)
        ensures
            match record(line@) {
                Ok(v) => r.is_ok() && r.unwrap().view() == v,
                Err(e) => r == Err::<CellDefinitions, SectionDecodeError>(e),
            },
    {
        let n = line.unicode_len();
        let c0 = find_char(line, ',', 0);
        if c0 >= n {
            return Err(SectionDecodeError::NotEnoughSections { last_section: 0 });
        }
        let c1 = find_char(line, ',', c0 + 1);
        let start = RgbColor::from_hex(
            SectionInfo { text: line.substring_char(c0 + 1, c1), section: 1, line: line_num },
        );
        let start = match start {
            Ok(c) => c,
            Err(e) => return Err(e),
        };
        if c1 >= n {
            return Err(SectionDecodeError::NotEnoughSections { last_section: 0 });
        }
        let c2 = find_char(line, ',', c1 + 1);
        let end = RgbColor::from_hex(
            SectionInfo { text: line.substring_char(c1 + 1, c2), section: 2, line: line_num },
        );
        let end = match end {
            Ok(c) => c,
            Err(e) => return Err(e),
        };
        Ok(CellDefinitions { name: line.substring_char(0, c0).to_owned(), rgb_start: start, rgb_end: end })
    }

    pub fn color_ranges(&self) -> (r: (&RgbColor, &RgbColor))
        ensures
            *r.0 == self.rgb_start,
            *r.1 == self.rgb_end,
    {
        (&self.rgb_start, &self.rgb_end)
    }
}

/// The text of each line.
pub open spec fn line_views(lines: Seq<String>) -> Seq<Seq<char>> {
    lines.map_values(|s: String| s@)
}

/// The names of the first `n` records, each followed by `;`.
pub open spec fn name_list(defs: Seq<RecordView>, n: int) -> Seq<char>
    decreases n,
{
    if n <= 0 {
        Seq::empty()
    } else {
        name_list(defs, n - 1) + defs[n - 1].0 + seq![';']
    }
}

pub open spec fn false_lo() -> Seq<char> {
    seq!['f', 'a', 'l', 's', 'e']
}

pub open spec fn false_up() -> Seq<char> {
    seq!['F', 'A', 'L', 'S', 'E']
}

pub open spec fn true_lo() -> Seq<char> {
    seq!['t', 'r', 'u', 'e']
}

pub open spec fn true_up() -> Seq<char> {
    seq!['T', 'R', 'U', 'E']
}

/// A truth value of a record field.
#[derive(Clone, Copy, Debug, PartialEq, Eq, Structural)]
pub enum Boolean {
    True,
    False,
}

/// `t` spells the word whose lower-case letters are `lo` and upper-case
/// letters `up`, each letter in either case.
pub open spec fn same_word(t: Seq<char>, lo: Seq<char>, up: Seq<char>) -> bool {
    &&& t.len() == lo.len()
    &&& forall|i: int| 0 <= i < t.len() ==> #[trigger] t[i] == lo[i] || t[i] == up[i]
}

/// Whether `t` spells `lo` / `up` with each letter in either case.
fn matches_word(t: &str, lo: &str, up: &str) -> (r: bool)
    requires
        lo@.len() == up@.len(),
    ensures
        r == same_word(t@, lo@, up@),
{
    let n = t.unicode_len();
    if n != lo.unicode_len() {
        return false;
    }
    let mut i: usize = 0;
    while i < n
        invariant
            n == t@.len(),
            n == lo@.len(),
            n == up@.len(),
            i <= n,
            forall|j: int| 0 <= j < i ==> #[trigger] t@[j] == lo@[j] || t@[j] == up@[j],
        decreases n - i,
    {
        let c = t.get_char(i);
        if c != lo.get_char(i) && c != up.get_char(i) {
            return false;
        }
        i = i + 1;
    }
    true
}

impl Boolean {
    /// Reads `true` or `false`, in any case; anything else is a `Boolean`
    /// error for the field.
    pub fn from_string(value: SectionInfo) -> (r: Result<Boolean, SectionDecodeError>)
        ensures
            same_word(value.text@, false_lo(), false_up()) ==> r == Ok::<Boolean, SectionDecodeError>(Boolean::False),
            same_word(value.text@, true_lo(), true_up()) ==> r == Ok::<Boolean, SectionDecodeError>(Boolean::True),
            !same_word(value.text@, false_lo(), false_up()) && !same_word(value.text@, true_lo(), true_up())
                ==> r == Err::<Boolean, SectionDecodeError>(SectionDecodeError::Boolean { section: value.section }),
    {
        proof {
            reveal_strlit("false");
            reveal_strlit("FALSE");
            reveal_strlit("true");
            reveal_strlit("TRUE");
        }
        let (f, fu, t, tu) = ("false", "FALSE", "true", "TRUE");
        assert(f@ =~= false_lo() && fu@ =~= false_up());
        assert(t@ =~= true_lo() && tu@ =~= true_up());
        if matches_word(value.text, f, fu) {
            Ok(Boolean::False)
        } else if matches_word(value.text, t, tu) {
            Ok(Boolean::True)
        } else {
            Err(SectionDecodeError::Boolean { section: value.section })
        }
    }
}

/// The loaded material table.
pub struct CellDefinitionLoader {
    pub definitions: Vec<CellDefinitions>,
}

impl CellDefinitionLoader {
    pub open spec fn view(&self) -> Seq<RecordView> {
        self.definitions@.map_values(|d: CellDefinitions| d.view())
    }

    /// Loads the table from its lines, all or nothing.
    pub fn from_memory(lines: &Vec<String>) -> (r: Result<Self, LineDecodeError>)
        ensures
            match load(line_views(lines@), 0, None) {
                Ok(v) => r.is_ok() && r.unwrap().view() == v,
                Err(e) => r == Err::<CellDefinitionLoader, LineDecodeError>(e),
            },
    {
        let ghost ls = line_views(lines@);
        let mut definitions: Vec<CellDefinitions> = Vec::new();
        let mut past: Option<usize> = None;
        let mut i: usize = 0;
        while i < lines.len()
            invariant
                ls == line_views(lines@),
                i <= lines@.len(),
                load(ls, 0, None) == prefixed(
                    definitions@.map_values(|d: CellDefinitions| d.view()),
                    load(ls, i as int, match past {
                        Some(n) => Some(n + 1),
                        None => None,
                    }),
                ),
            decreases lines.len() - i,
        {
            let line = lines[i].as_str();
            assert(line@ == ls[i as int]);
            let ghost pastv = match past {
                Some(n) => Some(n + 1),
                None => None,
            };
            let ghost acc = definitions@.map_values(|d: CellDefinitions| d.view());
            let n = line.unicode_len();
            let pos = find_char(line, ';', 0);
            if pos < n {
                return Err(LineDecodeError::ContainsBadCharacter { line: i, pos });
            }
            if n > 0 && line.get_char(0) == '#' {
                assert(load(ls, i as int, pastv) == load(ls, i + 1, pastv));
            } else {
                let commas = count_commas(line);
                let consistent = match past {
                    Some(p) => p == commas,
                    None => true,
                };
                if !consistent {
                    return Err(LineDecodeError::InconsistentSectionCount { line: i });
                }
                past = Some(commas);
                match CellDefinitions::new(line, i) {
                    Ok(res) => {
                        definitions.push(res);
                        proof {
                            assert(definitions@.map_values(|d: CellDefinitions| d.view()) =~= acc.push(
                                res.view(),
                            ));
                            assert(load(ls, i as int, pastv) == prepend(
                                res.view(),
                                load(ls, i + 1, Some(commas + 1)),
                            ));
                            lemma_prefixed_prepend(acc, res.view(), load(ls, i + 1, Some(commas + 1)));
                        }
                    },
                    Err(error) => {
                        return Err(LineDecodeError::BadSection { error, line: i });
                    },
                }
            }
            i = i + 1;
        }
        assert(load(ls, i as int, match past {
            Some(n) => Some(n + 1),
            None => None,
        }) == Ok::<Seq<RecordView>, LineDecodeError>(Seq::empty()));
        assert(definitions@.map_values(|d: CellDefinitions| d.view()) + Seq::<RecordView>::empty()
            =~= definitions@.map_values(|d: CellDefinitions| d.view()));
        Ok(CellDefinitionLoader { definitions })
    }

    /// The names of the materials, each followed by `;`.
    pub fn name_array(&self) -> (r: String)
        requires
            forall|i: int| 0 <= i < self.definitions@.len() ==> !(#[trigger] self.definitions@[i].name@).contains(';'),
        ensures
            r@ == name_list(self.view(), self.view().len() as int),
    {
        let mut collection = String::new();
        let mut i: usize = 0;
        while i < self.definitions.len()
            invariant
                i <= self.definitions@.len(),
                collection@ == name_list(self.view(), i as int),
            decreases self.definitions.len() - i,
        {
            proof {
                reveal_strlit(";");
            }
            collection.append(self.definitions[i].name.as_str());
            collection.append(";");
            assert(self.view()[i as int].0 == self.definitions@[i as int].name@);
            i = i + 1;
        }
        collection
    }

    pub fn get(&self) -> (r: &Vec<CellDefinitions>)
        ensures
            r == &self.definitions,
    {
        &self.definitions
    }
}

/// The name under which the material table lists `m`; the sentinel has
/// none.
pub open spec fn material_name(m: CellType) -> Seq<char> {
    match m {
        CellType::Outside => Seq::empty(),
        CellType::Air => seq!['a', 'i', 'r'],
        CellType::Sand => seq!['s', 'a', 'n', 'd'],
        CellType::Water => seq!['w', 'a', 't', 'e', 'r'],
        CellType::Oil => seq!['o', 'i', 'l'],
        CellType::Gas => seq!['g', 'a', 's'],
        CellType::Fire => seq!['f', 'i', 'r', 'e'],
        CellType::Lava => seq!['l', 'a', 'v', 'a'],
        CellType::Wood => seq!['w', 'o', 'o', 'd'],
        CellType::Stone => seq!['s', 't', 'o', 'n', 'e'],
        CellType::Cloner => seq!['c', 'l', 'o', 'n', 'e', 'r'],
    }
}

fn material_name_exec(m: CellType) -> (r: &'static str)
    requires
        m != CellType::Outside,
    ensures
        r@ == material_name(m),
{
    match m {
        CellType::Air => {
            proof {
                reveal_strlit("air");
            }
            let n = "air";
            assert(n@ =~= material_name(m));
            n
        },
        CellType::Sand => {
            proof {
                reveal_strlit("sand");
            }
            let n = "sand";
            assert(n@ =~= material_name(m));
            n
        },
        CellType::Water => {
            proof {
                reveal_strlit("water");
            }
            let n = "water";
            assert(n@ =~= material_name(m));
            n
        },
        CellType::Oil => {
            proof {
                reveal_strlit("oil");
            }
            let n = "oil";
            assert(n@ =~= material_name(m));
            n
        },
        CellType::Gas => {
            proof {
                reveal_strlit("gas");
            }
            let n = "gas";
            assert(n@ =~= material_name(m));
            n
        },
        CellType::Fire => {
            proof {
                reveal_strlit("fire");
            }
            let n = "fire";
            assert(n@ =~= material_name(m));
            n
        },
        CellType::Lava => {
            proof {
                reveal_strlit("lava");
            }
            let n = "lava";
            assert(n@ =~= material_name(m));
            n
        },
        CellType::Wood => {
            proof {
                reveal_strlit("wood");
            }
            let n = "wood";
            assert(n@ =~= material_name(m));
            n
        },
        CellType::Stone => {
            proof {
                reveal_strlit("stone");
            }
            let n = "stone";
            assert(n@ =~= material_name(m));
            n
        },
        CellType::Cloner => {
            proof {
                reveal_strlit("cloner");
            }
            let n = "cloner";
            assert(n@ =~= material_name(m));
            n
        },
        CellType::Outside => {
            proof {
                reveal_strlit("air");
            }
            "air"
        },
    }
}

/// Channel `i` of a colour.
pub open spec fn channel(c: RgbColor, i: int) -> u8 {
    if i == 0 {
        c.r
    } else if i == 1 {
        c.g
    } else {
        c.b
    }
}

/// The colours of the last of the first `n` records named for `m`.
pub open spec fn named_range(defs: Seq<RecordView>, m: CellType, n: int) -> Option<(RgbColor, RgbColor)>
    decreases n,
{
    if n <= 0 || n > defs.len() {
        None
    } else if defs[n - 1].0 == material_name(m) {
        Some((defs[n - 1].1, defs[n - 1].2))
    } else {
        named_range(defs, m, n - 1)
    }
}

/// The start (`e == 0`) or end colour, channel `c`, that a table gives
/// material `m`: the last record named for it, else the built-in colour.
pub open spec fn table_color(defs: Seq<RecordView>, m: CellType, e: int, c: int) -> u8 {
    match named_range(defs, m, defs.len() as int) {
        Some(p) => if m != CellType::Outside {
            if e == 0 {
                channel(p.0, c)
            } else {
                channel(p.1, c)
            }
        } else if e == 0 {
            color_start(m, c)
        } else {
            color_end(m, c)
        },
        None => if e == 0 {
            color_start(m, c)
        } else {
            color_end(m, c)
        },
    }
}

impl CellDefinitionLoader {
    /// The colour range of `m` that the table gives.
    fn range_for(&self, m: CellType) -> (r: [[u8; 3]; 2])
        ensures
            forall|e: int, c: int|
                0 <= e < 2 && 0 <= c < 3 ==> #[trigger] r[e][c] == table_color(self.view(), m, e, c),
    {
        let builtin = m.color();
        if m == CellType::Outside {
            return builtin;
        }
        let name = material_name_exec(m);
        let mut found: Option<(RgbColor, RgbColor)> = None;
        let mut i: usize = 0;
        while i < self.definitions.len()
            invariant
                i <= self.definitions@.len(),
                name@ == material_name(m),
                found == named_range(self.view(), m, i as int),
            decreases self.definitions.len() - i,
        {
            let d = &self.definitions[i];
            let same = matches_word(d.name.as_str(), name, name);
            assert(same <==> d.name@ == name@) by {
                if same {
                    assert(d.name@ =~= name@);
                }
            }
            assert(self.view()[i as int] == d.view());
            if same {
                found = Some((d.rgb_start, d.rgb_end));
            }
            i = i + 1;
        }
        match found {
            Some(p) => [p.0.as_array(), p.1.as_array()],
            None => builtin,
        }
    }
}

impl Palette {
    /// The palette that a material table gives: each material takes the
    /// colours of the last record named for it, or keeps its built-in ones.
    pub fn from_table(table: &CellDefinitionLoader) -> (r: Palette)
        ensures
            forall|m: CellType, c: int|
                0 <= c < 3 ==> #[trigger] r.start(m, c) == table_color(table.view(), m, 0, c) && r.end(m, c)
                    == table_color(table.view(), m, 1, c),
    {
        let r = Palette {
            ranges: [
                table.range_for(CellType::Outside),
                table.range_for(CellType::Air),
                table.range_for(CellType::Sand),
                table.range_for(CellType::Water),
                table.range_for(CellType::Oil),
                table.range_for(CellType::Gas),
                table.range_for(CellType::Fire),
                table.range_for(CellType::Lava),
                table.range_for(CellType::Wood),
                table.range_for(CellType::Stone),
                table.range_for(CellType::Cloner),
            ],
        };
        assert forall|m: CellType, c: int| 0 <= c < 3 implies #[trigger] r.start(m, c) == table_color(table.view(), m, 0, c) && r.end(m, c)
            == table_color(table.view(), m, 1, c) by {
            assert(r.ranges[slot(m)][0][c] == table_color(table.view(), m, 0, c));
        }
        r
    }
}

} // verus!
