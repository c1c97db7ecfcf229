use vstd::prelude::*;

verus! {

// ---------------------------------------------------------------------------
// The `.pls` wire format, as this crate reads it.
//
// A playlist is UTF-8 text: a header line `[playlist]`, then `key=value`
// lines in any order.  Recognized keys are `numberofentries` (an integer),
// `Version`, and `FileK`, `TitleK`, `LengthK` for 1-based entry numbers K.
// Lines are terminated by `\n` (an optional `\r` before it is dropped);
// anything after the last `\n` is ignored, and so is every line that is not
// a recognized `key=value` pair.  A malformed numeric field makes the whole
// text unparseable.
// ---------------------------------------------------------------------------
/// One playlist entry as collected from `FileK`/`TitleK`/`LengthK` lines.
#[derive(Clone, Debug)]
pub struct Entry {
    pub file: String,
    pub title: String,
    pub length: i32,
}

impl Default for Entry {
    fn default() -> (r: Self)
        ensures
            r.file@.len() == 0,
            r.title@.len() == 0,
            r.length == 0,
    {
        Entry { file: String::new(), title: String::new(), length: 0 }
    }
}

/// The observable content of an `Entry`.
pub struct EntryModel {
    pub file: Seq<char>,
    pub title: Seq<char>,
    pub length: int,
}

impl Entry {
    pub open spec fn model(&self) -> EntryModel {
        EntryModel { file: self.file@, title: self.title@, length: self.length as int }
    }
}

/// The observable content of a parsed playlist.
pub struct PlaylistModel {
    pub has_header: bool,
    pub number_of_entries: nat,
    pub version: Seq<char>,
    pub entries: Map<u32, EntryModel>,
}

// ---------------------------------------------------------------------------
// Characters and numbers.
// ---------------------------------------------------------------------------
pub open spec fn is_digit(c: char) -> bool {
    '0' <= c <= '9'
}

pub open spec fn is_alpha(c: char) -> bool {
    ('a' <= c <= 'z') || ('A' <= c <= 'Z')
}

pub open spec fn is_alnum(c: char) -> bool {
    is_alpha(c) || is_digit(c)
}

pub open spec fn all_digits(s: Seq<char>) -> bool {
    forall|i: int| 0 <= i < s.len() ==> is_digit(#[trigger] s[i])
}

/// The number written by a sequence of decimal digits.
pub open spec fn digits_val(s: Seq<char>) -> int
    decreases s.len(),
{
    if s.len() == 0 {
        0
    } else {
        digits_val(s.drop_last()) * 10 + (s.last() as int - ('0' as int))
    }
}

/// A valid unsigned decimal: digits only, at least one, value in range.
/// A single leading `+` is accepted, as decimal number syntax has it.
pub open spec fn u32_digits(s: Seq<char>) -> Seq<char> {
    if s.len() > 0 && s[0] == '+' {
        s.drop_first()
    } else {
        s
    }
}

pub open spec fn valid_u32(s: Seq<char>) -> bool {
    let d = u32_digits(s);
    d.len() > 0 && all_digits(d) && digits_val(d) <= u32::MAX
}

pub open spec fn u32_val(s: Seq<char>) -> int {
    digits_val(u32_digits(s))
}

/// A valid signed decimal: an optional single `+` or `-`, then digits.
pub open spec fn i32_digits(s: Seq<char>) -> Seq<char> {
    if s.len() > 0 && (s[0] == '+' || s[0] == '-') {
        s.drop_first()
    } else {
        s
    }
}

pub open spec fn i32_negative(s: Seq<char>) -> bool {
    s.len() > 0 && s[0] == '-'
}

pub open spec fn valid_i32(s: Seq<char>) -> bool {
    let d = i32_digits(s);
    &&& d.len() > 0
    &&& all_digits(d)
    &&& (if i32_negative(s) {
        digits_val(d) <= 0x8000_0000
    } else {
        digits_val(d) <= i32::MAX
    })
}

pub open spec fn i32_val(s: Seq<char>) -> int {
    if i32_negative(s) {
        -digits_val(i32_digits(s))
    } else {
        digits_val(i32_digits(s))
    }
}

// ---------------------------------------------------------------------------
// Splitting text into `\n`-terminated lines.
// ---------------------------------------------------------------------------
/// A line without its optional trailing carriage return.
pub open spec fn strip_cr(line: Seq<char>) -> Seq<char> {
    if line.len() > 0 && line.last() == '\r' {
        line.drop_last()
    } else {
        line
    }
}

/// The `\n`-terminated lines of `s`, each stripped of a trailing `\r`;
/// `cur` holds the characters of the line being read.  Characters after
/// the last `\n` never form a line.
pub open spec fn split_lines_acc(s: Seq<char>, cur: Seq<char>) -> Seq<Seq<char>>
    decreases s.len(),
{
    if s.len() == 0 {
        Seq::empty()
    } else if s[0] == '\n' {
        seq![strip_cr(cur)] + split_lines_acc(s.drop_first(), Seq::empty())
    } else {
        split_lines_acc(s.drop_first(), cur.push(s[0]))
    }
}

pub open spec fn split_lines(s: Seq<char>) -> Seq<Seq<char>> {
    split_lines_acc(s, Seq::empty())
}

// ---------------------------------------------------------------------------
// Reading one `key=value` line.
// ---------------------------------------------------------------------------
/// Index of the first `=` in `s`, or `-1` if there is none.
pub open spec fn first_eq(s: Seq<char>) -> int
    decreases s.len(),
{
    if s.len() == 0 {
        -1
    } else if s[0] == '=' {
        0
    } else if first_eq(s.drop_first()) == -1 {
        -1
    } else {
        first_eq(s.drop_first()) + 1
    }
}

pub proof fn lemma_first_eq(s: Seq<char>)
    ensures
        -1 <= first_eq(s) < s.len(),
        first_eq(s) >= 0 ==> s[first_eq(s)] == '=',
        forall|j: int| 0 <= j < first_eq(s) ==> s[j] != '=',
        first_eq(s) == -1 ==> forall|j: int| 0 <= j < s.len() ==> s[j] != '=',
    decreases s.len(),
{
    if s.len() == 0 {
    } else if s[0] == '=' {
    } else {
        lemma_first_eq(s.drop_first());
        if first_eq(s.drop_first()) >= 0 {
            assert(s.drop_first()[first_eq(s.drop_first())] == s[first_eq(s)]);
        }
        assert forall|j: int| 0 <= j < first_eq(s) implies s[j] != '=' by {
            if j > 0 {
                assert(s[j] == s.drop_first()[j - 1]);
            }
        }
        if first_eq(s) == -1 {
            assert forall|j: int| 0 <= j < s.len() implies s[j] != '=' by {
                if j > 0 {
                    assert(s[j] == s.drop_first()[j - 1]);
                }
            }
        }
    }
}

/// How many leading characters of `s` are ASCII letters.
pub open spec fn alpha_prefix(s: Seq<char>) -> int
    decreases s.len(),
{
    if s.len() == 0 {
        0
    } else if !is_alpha(s[0]) {
        0
    } else {
        1 + alpha_prefix(s.drop_first())
    }
}

pub proof fn lemma_alpha_prefix(s: Seq<char>)
    ensures
        0 <= alpha_prefix(s) <= s.len(),
        forall|j: int| 0 <= j < alpha_prefix(s) ==> is_alpha(#[trigger] s[j]),
        alpha_prefix(s) < s.len() ==> !is_alpha(s[alpha_prefix(s)]),
    decreases s.len(),
{
    if s.len() == 0 {
    } else if !is_alpha(s[0]) {
    } else {
        lemma_alpha_prefix(s.drop_first());
        assert forall|j: int| 0 <= j < alpha_prefix(s) implies is_alpha(#[trigger] s[j]) by {
            if j > 0 {
                assert(s[j] == s.drop_first()[j - 1]);
            }
        }
        if alpha_prefix(s) < s.len() {
            assert(s[alpha_prefix(s)] == s.drop_first()[alpha_prefix(s) - 1]);
        }
    }
}

pub open spec fn all_alnum(s: Seq<char>) -> bool {
    forall|i: int| 0 <= i < s.len() ==> is_alnum(#[trigger] s[i])
}

pub open spec fn empty_entry() -> EntryModel {
    EntryModel { file: Seq::empty(), title: Seq::empty(), length: 0 }
}

pub open spec fn entry_or_default(es: Map<u32, EntryModel>, k: u32) -> EntryModel {
    if es.contains_key(k) {
        es[k]
    } else {
        empty_entry()
    }
}

/// One line folded into the playlist being built.
///
/// A line is a recognized pair only when everything left of the first `=`
/// is alphanumeric.  An all-letter key must be `numberofentries` or
/// `Version`; a letters-then-digits key must be `FileK`, `TitleK` or
/// `LengthK`.  Every other line is ignored.  `None` means a malformed
/// numeric field: an unreadable entry number, entry count or length.
pub open spec fn apply_line_spec(m: PlaylistModel, line: Seq<char>) -> Option<PlaylistModel> {
    let e = first_eq(line);
    if e <= 0 {
        Some(m)
    } else {
        let key = line.take(e);
        let value = line.subrange(e + 1, line.len() as int);
        if !all_alnum(key) {
            Some(m)
        } else {
            let a = alpha_prefix(key);
            if a == key.len() {
                if key == "numberofentries"@ {
                    if valid_u32(value) {
                        Some(PlaylistModel { number_of_entries: u32_val(value) as nat, ..m })
                    } else {
                        None
                    }
                } else if key == "Version"@ {
                    Some(PlaylistModel { version: value, ..m })
                } else {
                    Some(m)
                }
            } else if a > 0 && all_digits(key.subrange(a, key.len() as int)) {
                let field = key.take(a);
                let kd = key.subrange(a, key.len() as int);
                if field == "File"@ || field == "Title"@ || field == "Length"@ {
                    if !valid_u32(kd) {
                        None
                    } else {
                        let k = u32_val(kd) as u32;
                        let prev = entry_or_default(m.entries, k);
                        if field == "File"@ {
                            Some(
                                PlaylistModel {
                                    entries: m.entries.insert(k, EntryModel { file: value, ..prev }),
                                    ..m
                                },
                            )
                        } else if field == "Title"@ {
                            Some(
                                PlaylistModel {
                                    entries: m.entries.insert(
                                        k,
                                        EntryModel { title: value, ..prev },
                                    ),
                                    ..m
                                },
                            )
                        } else if valid_i32(value) {
                            Some(
                                PlaylistModel {
                                    entries: m.entries.insert(
                                        k,
                                        EntryModel { length: i32_val(value), ..prev },
                                    ),
                                    ..m
                                },
                            )
                        } else {
                            None
                        }
                    }
                } else {
                    Some(m)
                }
            } else {
                Some(m)
            }
        }
    }
}

/// The lines of the body folded in order.
pub open spec fn fold_lines(m: PlaylistModel, lines: Seq<Seq<char>>) -> Option<PlaylistModel>
    decreases lines.len(),
{
    if lines.len() == 0 {
        Some(m)
    } else {
        match apply_line_spec(m, lines[0]) {
            Some(m2) => fold_lines(m2, lines.drop_first()),
            None => None,
        }
    }
}

/// The playlist before any body line is read.
pub open spec fn init_model() -> PlaylistModel {
    PlaylistModel {
        has_header: true,
        number_of_entries: 0,
        version: Seq::empty(),
        entries: Map::empty(),
    }
}

/// The first line of the text is the `[playlist]` header.
pub open spec fn header_ok(s: Seq<char>) -> bool {
    split_lines(s).len() > 0 && split_lines(s)[0] == "[playlist]"@
}

/// What parsing the whole text yields: `None` when the header is missing
/// or a recognized numeric field is malformed.
pub open spec fn parse_spec(s: Seq<char>) -> Option<PlaylistModel> {
    if header_ok(s) {
        fold_lines(init_model(), split_lines(s).drop_first())
    } else {
        None
    }
}

// ---------------------------------------------------------------------------
// The entry table: an association list viewed as a map.
// ---------------------------------------------------------------------------
pub open spec fn keys_unique(s: Seq<(u32, Entry)>) -> bool {
    forall|i: int, j: int| 0 <= i < j < s.len() ==> (#[trigger] s[i]).0 != (#[trigger] s[j]).0
}

pub open spec fn entries_map(s: Seq<(u32, Entry)>) -> Map<u32, EntryModel>
    decreases s.len(),
{
    if s.len() == 0 {
        Map::empty()
    } else {
        entries_map(s.drop_last()).insert(s.last().0, s.last().1.model())
    }
}

pub proof fn lemma_entries_map_domain(s: Seq<(u32, Entry)>, k: u32)
    ensures
        entries_map(s).contains_key(k) <==> exists|i: int|
            0 <= i < s.len() && (#[trigger] s[i]).0 == k,
    decreases s.len(),
{
    if s.len() > 0 {
        lemma_entries_map_domain(s.drop_last(), k);
        if s.last().0 == k {
            assert(s[s.len() - 1].0 == k);
        } else if entries_map(s).contains_key(k) {
            let i = choose|i: int| 0 <= i < s.drop_last().len() && (#[trigger] s.drop_last()[i]).0 == k;
            assert(s[i].0 == k);
        } else {
            assert forall|i: int| 0 <= i < s.len() implies (#[trigger] s[i]).0 != k by {
                if i < s.len() - 1 {
                    assert(s.drop_last()[i] == s[i]);
                }
            }
        }
    }
}

pub proof fn lemma_entries_map_lookup(s: Seq<(u32, Entry)>, i: int)
    requires
        keys_unique(s),
        0 <= i < s.len(),
    ensures
        entries_map(s).contains_key(s[i].0),
        entries_map(s)[s[i].0] == s[i].1.model(),
    decreases s.len(),
{
    if i == s.len() - 1 {
        assert(s.last() == s[i]);
    } else {
        assert(keys_unique(s.drop_last())) by {
            assert(forall|a: int, b: int|
                0 <= a < b < s.drop_last().len() ==> (#[trigger] s.drop_last()[a]) == s[a]
                    && (#[trigger] s.drop_last()[b]) == s[b]);
        }
        assert(s.drop_last()[i] == s[i]);
        lemma_entries_map_lookup(s.drop_last(), i);
        assert(s[i].0 != s.last().0) by {
            assert(s.last() == s[s.len() - 1]);
        }
    }
}

pub proof fn lemma_entries_map_update(s: Seq<(u32, Entry)>, i: int, e: Entry)
    requires
        keys_unique(s),
        0 <= i < s.len(),
    ensures
        keys_unique(s.update(i, (s[i].0, e))),
        entries_map(s.update(i, (s[i].0, e))) == entries_map(s).insert(s[i].0, e.model()),
    decreases s.len(),
{
    let k = s[i].0;
    let s2 = s.update(i, (k, e));
    assert(keys_unique(s2)) by {
        assert(forall|a: int| 0 <= a < s.len() ==> (#[trigger] s2[a]).0 == s[a].0);
    }
    if i == s.len() - 1 {
        assert(s2.drop_last() =~= s.drop_last());
        assert(s2.last() == (k, e));
        assert(entries_map(s2) == entries_map(s.drop_last()).insert(k, e.model()));
        assert(entries_map(s).insert(k, e.model()) =~= entries_map(s.drop_last()).insert(
            k,
            e.model(),
        ));
    } else {
        assert(keys_unique(s.drop_last())) by {
            assert(forall|a: int, b: int|
                0 <= a < b < s.drop_last().len() ==> (#[trigger] s.drop_last()[a]) == s[a]
                    && (#[trigger] s.drop_last()[b]) == s[b]);
        }
        assert(s.drop_last()[i] == s[i]);
        lemma_entries_map_update(s.drop_last(), i, e);
        assert(s2.drop_last() =~= s.drop_last().update(i, (k, e)));
        assert(s2.last() == s.last());
        assert(s.last().0 != k) by {
            assert(s.last() == s[s.len() - 1]);
        }
        assert(entries_map(s2) == entries_map(s.drop_last()).insert(k, e.model()).insert(
            s.last().0,
            s.last().1.model(),
        ));
        assert(entries_map(s.drop_last()).insert(k, e.model()).insert(
            s.last().0,
            s.last().1.model(),
        ) =~= entries_map(s).insert(k, e.model()));
    }
}

pub proof fn lemma_entries_map_push(s: Seq<(u32, Entry)>, k: u32, e: Entry)
    requires
        keys_unique(s),
        forall|i: int| 0 <= i < s.len() ==> (#[trigger] s[i]).0 != k,
    ensures
        keys_unique(s.push((k, e))),
        entries_map(s.push((k, e))) == entries_map(s).insert(k, e.model()),
{
    let s2 = s.push((k, e));
    assert(keys_unique(s2)) by {
        assert(forall|a: int| 0 <= a < s.len() ==> (#[trigger] s2[a]) == s[a]);
        assert(s2[s.len() as int] == (k, e));
    }
    assert(s2.drop_last() =~= s);
    assert(s2.last() == (k, e));
}

// ---------------------------------------------------------------------------
// Executable helpers with exact contracts.
// ---------------------------------------------------------------------------
/// Character-for-character equality of two string slices.
pub fn str_eq(a: &str, b: &str) -> (r: bool)
    ensures
        r == (a@ == b@),
{
    let na = a.unicode_len();
    let nb = b.unicode_len();
    if na != nb {
        return false;
    }
    let mut i: usize = 0;
    while i < na
        invariant
            i <= na,
            na == a@.len(),
            na == b@.len(),
            forall|j: int| 0 <= j < i ==> a@[j] == b@[j],
        decreases na - i,
    {
        if a.get_char(i) != b.get_char(i) {
            return false;
        }
        i = i + 1;
    }
    proof {
        assert(a@ =~= b@);
    }
    true
}

/// Split `text` into its `\n`-terminated lines, as `split_lines` reads it.
pub fn lines_of(text: &str) -> (r: Vec<String>)
    ensures
        r@.map(|i: int, s: String| s@) == split_lines(text@),
{
    let n = text.unicode_len();
    let mut lines: Vec<String> = Vec::new();
    let mut start: usize = 0;
    let mut i: usize = 0;
    proof {
        assert(text@.subrange(0, n as int) =~= text@);
        assert(text@.subrange(0, 0) =~= Seq::<char>::empty());
        assert(lines@.map(|k: int, s: String| s@) =~= Seq::<Seq<char>>::empty());
        assert(Seq::<Seq<char>>::empty() + split_lines_acc(text@, Seq::empty())
            =~= split_lines_acc(text@, Seq::empty()));
    }
    while i < n
        invariant
            start <= i <= n,
            n == text@.len(),
            split_lines(text@) == lines@.map(|k: int, s: String| s@) + split_lines_acc(
                text@.subrange(i as int, n as int),
                text@.subrange(start as int, i as int),
            ),
        decreases n - i,
    {
        let ghost rest = text@.subrange(i as int, n as int);
        let ghost cur = text@.subrange(start as int, i as int);
        proof {
            assert(rest[0] == text@[i as int]);
            assert(rest.drop_first() =~= text@.subrange(i as int + 1, n as int));
        }
        let c = text.get_char(i);
        if c == '\n' {
            let line = if i > start && text.get_char(i - 1) == '\r' {
                text.substring_char(start, i - 1)
            } else {
                text.substring_char(start, i)
            };
            proof {
                if i > start && text@[i as int - 1] == '\r' {
                    assert(cur.len() > 0 && cur.last() == '\r');
                    assert(strip_cr(cur) =~= text@.subrange(start as int, i as int - 1));
                } else {
                    assert(strip_cr(cur) =~= cur);
                }
            }
            let owned = line.to_owned();
            lines.push(owned);
            proof {
                assert(lines@.map(|k: int, s: String| s@) =~= lines@.drop_last().map(
                    |k: int, s: String| s@,
                ) + seq![strip_cr(cur)]);
                assert(text@.subrange(i as int + 1, i as int + 1) =~= Seq::<char>::empty());
                assert((lines@.drop_last().map(|k: int, s: String| s@) + seq![strip_cr(cur)])
                    + split_lines_acc(rest.drop_first(), Seq::empty())
                    =~= lines@.drop_last().map(|k: int, s: String| s@) + (seq![strip_cr(cur)]
                    + split_lines_acc(rest.drop_first(), Seq::empty())));
            }
            start = i + 1;
        } else {
            proof {
                assert(cur.push(text@[i as int]) =~= text@.subrange(
                    start as int,
                    i as int + 1,
                ));
            }
        }
        i = i + 1;
    }
    proof {
        assert(text@.subrange(n as int, n as int) =~= Seq::<char>::empty());
        assert(split_lines_acc(Seq::<char>::empty(), text@.subrange(start as int, n as int))
            == Seq::<Seq<char>>::empty());
        assert(lines@.map(|k: int, s: String| s@) + Seq::<Seq<char>>::empty() =~= lines@.map(
            |k: int, s: String| s@,
        ));
    }
    lines
}

/// A parsed playlist: the entry table is an association list in first-seen
/// order, with one row per entry number.
#[derive(Clone, Debug)]
pub struct Playlist {
    pub has_header: bool,
    pub number_of_entries: u32,
    pub version: String,
    pub entries: Vec<(u32, Entry)>,
}

impl Playlist {
    /// Every entry number appears in at most one row.
    pub open spec fn wf(&self) -> bool {
        keys_unique(self.entries@)
    }

    /// The playlist as the contracts see it.
    pub open spec fn model(&self) -> PlaylistModel {
        PlaylistModel {
            has_header: self.has_header,
            number_of_entries: self.number_of_entries as nat,
            version: self.version@,
            entries: entries_map(self.entries@),
        }
    }
}

/// The file of entry `k`, or the empty string when `k` has no entry.
pub open spec fn file_at(m: PlaylistModel, k: u32) -> Seq<char> {
    entry_or_default(m.entries, k).file
}

/// Index of the first `=` in `line`, if any.
fn find_first_eq(line: &str) -> (r: Option<usize>)
    ensures
        match r {
            Some(i) => first_eq(line@) == i,
            None => first_eq(line@) == -1,
        },
{
    let n = line.unicode_len();
    let mut i: usize = 0;
    while i < n
        invariant
            i <= n,
            n == line@.len(),
            forall|j: int| 0 <= j < i ==> line@[j] != '=',
        decreases n - i,
    {
        if line.get_char(i) == '=' {
            proof {
                lemma_first_eq(line@);
            }
            return Some(i);
        }
        i = i + 1;
    }
    proof {
        lemma_first_eq(line@);
    }
    None
}

/// Whether every character of `s` is an ASCII letter or digit.
fn check_all_alnum(s: &str) -> (r: bool)
    ensures
        r == all_alnum(s@),
{
    let n = s.unicode_len();
    let mut i: usize = 0;
    while i < n
        invariant
            i <= n,
            n == s@.len(),
            forall|j: int| 0 <= j < i ==> is_alnum(#[trigger] s@[j]),
        decreases n - i,
    {
        let c = s.get_char(i);
        let alpha = ('a' <= c && c <= 'z') || ('A' <= c && c <= 'Z');
        let digit = '0' <= c && c <= '9';
        if !(alpha || digit) {
            return false;
        }
        i = i + 1;
    }
    true
}

/// How many leading characters of `s` are ASCII letters.
fn alpha_prefix_of(s: &str) -> (r: usize)
    ensures
        r == alpha_prefix(s@),
{
    let n = s.unicode_len();
    let mut i: usize = 0;
    while i < n
        invariant
            i <= n,
            n == s@.len(),
            forall|j: int| 0 <= j < i ==> is_alpha(#[trigger] s@[j]),
        decreases n - i,
    {
        let c = s.get_char(i);
        if !(('a' <= c && c <= 'z') || ('A' <= c && c <= 'Z')) {
            proof {
                lemma_alpha_prefix(s@);
            }
            return i;
        }
        i = i + 1;
    }
    proof {
        lemma_alpha_prefix(s@);
    }
    n
}

/// Whether every character of `s` from `from` on is a decimal digit.
fn check_digits_from(s: &str, from: usize) -> (r: bool)
    requires
        from <= s@.len(),
    ensures
        r == all_digits(s@.subrange(from as int, s@.len() as int)),
{
    let n = s.unicode_len();
    let ghost d = s@.subrange(from as int, n as int);
    let mut i: usize = from;
    while i < n
        invariant
            from <= i <= n,
            n == s@.len(),
            d == s@.subrange(from as int, n as int),
            forall|j: int| 0 <= j < i - from ==> is_digit(#[trigger] d[j]),
        decreases n - i,
    {
        let c = s.get_char(i);
        proof {
            assert(d[i - from] == s@[i as int]);
        }
        if !('0' <= c && c <= '9') {
            return false;
        }
        i = i + 1;
    }
    true
}

/// Row index of entry number `k`, if the table has one.
pub fn find_entry(entries: &Vec<(u32, Entry)>, k: u32) -> (r: Option<usize>)
    ensures
        match r {
            Some(i) => i < entries@.len() && entries@[i as int].0 == k,
            None => forall|i: int| 0 <= i < entries@.len() ==> (#[trigger] entries@[i]).0 != k,
        },
{
    let mut i: usize = 0;
    while i < entries.len()
        invariant
            i <= entries@.len(),
            forall|j: int| 0 <= j < i ==> (#[trigger] entries@[j]).0 != k,
        decreases entries@.len() - i,
    {
        if entries[i].0 == k {
            return Some(i);
        }
        i = i + 1;
    }
    None
}

/// Fold one line into the playlist being built.  Returns `false` exactly
/// when the line holds a malformed numeric field, leaving the playlist as
/// it was.
pub fn apply_line(p: &mut Playlist, line: &str) -> (ok: bool)
    requires
        old(p).wf(),
    ensures
        final(p).wf(),
        match apply_line_spec(old(p).model(), line@) {
            Some(m2) => ok && final(p).model() == m2,
            None => !ok && *final(p) == *old(p),
        },
{
    let ghost m0 = old(p).model();
    let n = line.unicode_len();
    let eq_idx = match find_first_eq(line) {
        Some(i) => i,
        None => {
            return true;
        },
    };
    if eq_idx == 0 {
        return true;
    }
    proof {
        lemma_first_eq(line@);
    }
    let key = line.substring_char(0, eq_idx);
    let value = line.substring_char(eq_idx + 1, n);
    proof {
        assert(key@ =~= line@.take(eq_idx as int));
    }
    if !check_all_alnum(key) {
        return true;
    }
    let a = alpha_prefix_of(key);
    let klen = key.unicode_len();
    proof {
        lemma_alpha_prefix(key@);
    }
    if a == klen {
        if str_eq(key, "numberofentries") {
            match parse_u32(value) {
                Some(v) => {
                    p.number_of_entries = v;
                    true
                },
                None => false,
            }
        } else if str_eq(key, "Version") {
            p.version = value.to_owned();
            true
        } else {
            true
        }
    } else if a > 0 && check_digits_from(key, a) {
        let field = key.substring_char(0, a);
        let kd = key.substring_char(a, klen);
        proof {
            assert(field@ =~= key@.take(a as int));
        }
        let is_file = str_eq(field, "File");
        let is_title = str_eq(field, "Title");
        let is_length = str_eq(field, "Length");
        if is_file || is_title || is_length {
            match parse_u32(kd) {
                None => false,
                Some(k) => {
                    let ghost prev = entry_or_default(m0.entries, k);
                    match find_entry(&p.entries, k) {
                        Some(i) => {
                            proof {
                                lemma_entries_map_lookup(p.entries@, i as int);
                            }
                            let newe = if is_file {
                                Entry {
                                    file: value.to_owned(),
                                    title: p.entries[i].1.title.clone(),
                                    length: p.entries[i].1.length,
                                }
                            } else if is_title {
                                Entry {
                                    file: p.entries[i].1.file.clone(),
                                    title: value.to_owned(),
                                    length: p.entries[i].1.length,
                                }
                            } else {
                                match parse_i32(value) {
                                    Some(l) => Entry {
                                        file: p.entries[i].1.file.clone(),
                                        title: p.entries[i].1.title.clone(),
                                        length: l,
                                    },
                                    None => {
                                        return false;
                                    },
                                }
                            };
                            proof {
                                lemma_entries_map_update(p.entries@, i as int, newe);
                            }
                            p.entries[i] = (k, newe);
                            true
                        },
                        None => {
                            proof {
                                lemma_entries_map_domain(p.entries@, k);
                                assert(!m0.entries.contains_key(k));
                            }
                            let newe = if is_file {
                                Entry { file: value.to_owned(), title: String::new(), length: 0 }
                            } else if is_title {
                                Entry { file: String::new(), title: value.to_owned(), length: 0 }
                            } else {
                                match parse_i32(value) {
                                    Some(l) => Entry {
                                        file: String::new(),
                                        title: String::new(),
                                        length: l,
                                    },
                                    None => {
                                        return false;
                                    },
                                }
                            };
                            proof {
                                lemma_entries_map_push(p.entries@, k, newe);
                            }
                            p.entries.push((k, newe));
                            true
                        },
                    }
                },
            }
        } else {
            true
        }
    } else {
        true
    }
}

/// Parse `.pls` playlist text.  `Ok` holds exactly the playlist the wire
/// format describes; `Err` reports a missing header or a malformed numeric
/// field.
pub fn parse(input: &str) -> (r: Result<Playlist, String>)
    ensures
        match r {
            Ok(p) => parse_spec(input@) == Some(p.model()) && p.wf(),
            Err(_) => parse_spec(input@) is None,
        },
{
    let lines = lines_of(input);
    let ghost all = split_lines(input@);
    if lines.len() == 0 {
        return Err("missing [playlist] header".to_owned());
    }
    if !str_eq(lines[0].as_str(), "[playlist]") {
        return Err("missing [playlist] header".to_owned());
    }
    let mut p = Playlist {
        has_header: true,
        number_of_entries: 0,
        version: String::new(),
        entries: Vec::new(),
    };
    proof {
        assert(p.model().entries =~= init_model().entries);
        assert(p.model().version =~= init_model().version);
        assert(p.model() == init_model());
        assert(all.drop_first() =~= all.subrange(1, all.len() as int));
    }
    let mut i: usize = 1;
    while i < lines.len()
        invariant
            1 <= i <= lines@.len(),
            p.wf(),
            lines@.map(|k: int, s: String| s@) == split_lines(input@),
            header_ok(input@),
            parse_spec(input@) == fold_lines(
                p.model(),
                split_lines(input@).subrange(i as int, split_lines(input@).len() as int),
            ),
        decreases lines@.len() - i,
    {
        let ghost rest = split_lines(input@).subrange(i as int, split_lines(input@).len() as int);
        proof {
            assert(rest[0] == lines@.map(|k: int, s: String| s@)[i as int]);
            assert(rest.drop_first() =~= split_lines(input@).subrange(
                i as int + 1,
                split_lines(input@).len() as int,
            ));
        }
        let ok = apply_line(&mut p, lines[i].as_str());
        if !ok {
            return Err("malformed numeric field".to_owned());
        }
        i = i + 1;
    }
    proof {
        assert(split_lines(input@).subrange(
            lines@.len() as int,
            split_lines(input@).len() as int,
        ) =~= Seq::<Seq<char>>::empty());
    }
    Ok(p)
}

impl Playlist {
    /// The ordered file list the wire format describes: the file of entry
    /// K at position K-1, first entry first.
    pub fn files(&self) -> (r: Vec<String>)
        requires
            self.wf(),
        ensures
            r@.len() == self.number_of_entries as int,
            forall|i: int|
                0 <= i < r@.len() ==> (#[trigger] r@[i])@ == file_at(
                    self.model(),
                    (i + 1) as u32,
                ),
    {
        let mut result: Vec<String> = Vec::new();
        let n = self.number_of_entries;
        let mut i: u32 = 0;
        while i < n
            invariant
                i <= n,
                n == self.number_of_entries,
                self.wf(),
                result@.len() == i as int,
                forall|j: int|
                    0 <= j < i as int ==> (#[trigger] result@[j])@ == file_at(
                        self.model(),
                        (j + 1) as u32,
                    ),
            decreases n - i,
        {
            let k = i + 1;
            match find_entry(&self.entries, k) {
                Some(idx) => {
                    proof {
                        lemma_entries_map_lookup(self.entries@, idx as int);
                    }
                    result.push(self.entries[idx].1.file.clone());
                },
                None => {
                    proof {
                        lemma_entries_map_domain(self.entries@, k);
                    }
                    result.push(String::new());
                },
            }
            i = i + 1;
        }
        result
    }

    /// The entry stored under number `k`, if any.
    pub fn entry(&self, k: u32) -> (r: Option<&Entry>)
        requires
            self.wf(),
        ensures
            match r {
                Some(e) => self.model().entries.contains_key(k) && e.model()
                    == self.model().entries[k],
                None => !self.model().entries.contains_key(k),
            },
    {
        match find_entry(&self.entries, k) {
            Some(i) => {
                proof {
                    lemma_entries_map_lookup(self.entries@, i as int);
                }
                Some(&self.entries[i].1)
            },
            None => {
                proof {
                    lemma_entries_map_domain(self.entries@, k);
                }
                None
            },
        }
    }
}

pub proof fn lemma_digits_val_nonneg(s: Seq<char>)
    requires
        all_digits(s),
    ensures
        digits_val(s) >= 0,
    decreases s.len(),
{
    if s.len() > 0 {
        assert(is_digit(s[s.len() - 1]));
        assert(all_digits(s.drop_last())) by {
            assert(forall|i: int|
                0 <= i < s.drop_last().len() ==> s.drop_last()[i] == #[trigger] s[i]);
        }
        lemma_digits_val_nonneg(s.drop_last());
    }
}

/// Reading more digits never shrinks the value.
pub proof fn lemma_digits_val_extend(s: Seq<char>, j: int)
    requires
        all_digits(s),
        0 <= j <= s.len(),
    ensures
        digits_val(s.take(j)) <= digits_val(s),
        digits_val(s.take(j)) >= 0,
    decreases s.len() - j,
{
    assert(all_digits(s.take(j))) by {
        assert(forall|i: int| 0 <= i < j ==> s.take(j)[i] == #[trigger] s[i]);
    }
    lemma_digits_val_nonneg(s.take(j));
    if j == s.len() {
        assert(s.take(j) =~= s);
    } else {
        assert(s.take(j + 1).drop_last() =~= s.take(j));
        assert(s.take(j + 1).last() == s[j]);
        assert(is_digit(s[j]));
        lemma_digits_val_extend(s, j + 1);
        assert(digits_val(s.take(j + 1)) == digits_val(s.take(j)) * 10 + (s[j] as int
            - '0' as int));
    }
}

/// Read an unsigned decimal (optionally with a single leading `+`),
/// exactly when the text is one and its value fits.
pub fn parse_u32(s: &str) -> (r: Option<u32>)
    ensures
        r is Some <==> valid_u32(s@),
        r is Some ==> r->0 as int == u32_val(s@),
{
    let n = s.unicode_len();
    let mut j: usize = 0;
    if n > 0 && s.get_char(0) == '+' {
        j = 1;
    }
    let start = j;
    let ghost d = u32_digits(s@);
    proof {
        assert(d =~= s@.subrange(start as int, n as int));
    }
    if start >= n {
        return None;
    }
    let mut val: u32 = 0;
    while j < n
        invariant
            start <= j <= n,
            n == s@.len(),
            d == s@.subrange(start as int, n as int),
            d == u32_digits(s@),
            d.len() == n - start,
            all_digits(d.take(j - start)),
            val as int == digits_val(d.take(j - start)),
        decreases n - j,
    {
        let c = s.get_char(j);
        proof {
            assert(d[j - start] == s@[j as int]);
        }
        if !('0' <= c && c <= '9') {
            proof {
                assert(!is_digit(d[j - start]));
            }
            return None;
        }
        let dg = (c as u32) - ('0' as u32);
        proof {
            assert(d.take(j - start + 1).drop_last() =~= d.take(j - start));
            assert(d.take(j - start + 1).last() == d[j - start]);
        }
        if val > u32::MAX / 10 || (val == u32::MAX / 10 && dg > u32::MAX % 10) {
            proof {
                assert(digits_val(d.take(j - start + 1)) == digits_val(d.take(j - start)) * 10
                    + (d[j - start] as int - '0' as int));
                assert(d[j - start] as int - '0' as int == dg as int);
                assert(val as int * 10 + dg as int > u32::MAX) by {
                    assert(u32::MAX / 10 == 429496729 && u32::MAX % 10 == 5);
                }
                assert(digits_val(d.take(j - start + 1)) > u32::MAX);
                assert(!valid_u32(s@)) by {
                    if all_digits(d) && digits_val(d) <= u32::MAX {
                        lemma_digits_val_extend(d, j - start + 1);
                    }
                }
            }
            return None;
        }
        val = val * 10 + dg;
        j = j + 1;
    }
    proof {
        assert(d.take(n - start) =~= d);
    }
    Some(val)
}

/// Read a signed decimal (optionally with a single leading `+` or `-`),
/// exactly when the text is one and its value fits.
pub fn parse_i32(s: &str) -> (r: Option<i32>)
    ensures
        r is Some <==> valid_i32(s@),
        r is Some ==> r->0 as int == i32_val(s@),
{
    let n = s.unicode_len();
    let mut j: usize = 0;
    let mut neg = false;
    if n > 0 {
        let c0 = s.get_char(0);
        if c0 == '+' {
            j = 1;
        } else if c0 == '-' {
            j = 1;
            neg = true;
        }
    }
    let start = j;
    let ghost d = i32_digits(s@);
    proof {
        assert(d =~= s@.subrange(start as int, n as int));
        assert(neg == i32_negative(s@));
    }
    if start >= n {
        return None;
    }
    let ghost limit: int = if neg {
        0x8000_0000
    } else {
        i32::MAX as int
    };
    let mut val: u32 = 0;
    while j < n
        invariant
            start <= j <= n,
            n == s@.len(),
            d == s@.subrange(start as int, n as int),
            d == i32_digits(s@),
            neg == i32_negative(s@),
            d.len() == n - start,
            all_digits(d.take(j - start)),
            val as int == digits_val(d.take(j - start)),
            val <= limit,
            limit == if neg {
                0x8000_0000int
            } else {
                i32::MAX as int
            },
        decreases n - j,
    {
        let c = s.get_char(j);
        proof {
            assert(d[j - start] == s@[j as int]);
        }
        if !('0' <= c && c <= '9') {
            proof {
                assert(!is_digit(d[j - start]));
            }
            return None;
        }
        let dg = (c as u32) - ('0' as u32);
        proof {
            assert(d.take(j - start + 1).drop_last() =~= d.take(j - start));
            assert(d.take(j - start + 1).last() == d[j - start]);
        }
        let cap: u32 = if neg {
            0x8000_0000
        } else {
            0x7FFF_FFFF
        };
        if val > cap / 10 || (val == cap / 10 && dg > cap % 10) {
            proof {
                assert(digits_val(d.take(j - start + 1)) > limit);
                assert(!valid_i32(s@)) by {
                    if all_digits(d) && digits_val(d) <= limit {
                        lemma_digits_val_extend(d, j - start + 1);
                    }
                }
            }
            return None;
        }
        val = val * 10 + dg;
        j = j + 1;
    }
    proof {
        assert(d.take(n - start) =~= d);
    }
    if neg {
        let out: i32 = if val == 0x8000_0000u32 {
            i32::MIN
        } else {
            -(val as i32)
        };
        Some(out)
    } else {
        Some(val as i32)
    }
}

} // verus!
