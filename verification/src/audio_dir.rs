use vstd::prelude::*;

verus! {

// ---------------------------------------------------------------------------
// Locator text: display names and extensions.
// ---------------------------------------------------------------------------
/// Index of the last occurrence of `c` in `s`, or `-1` if there is none.
pub open spec fn last_index_of(s: Seq<char>, c: char) -> int
    decreases s.len(),
{
    if s.len() == 0 {
        -1
    } else if s[s.len() - 1] == c {
        s.len() - 1
    } else {
        last_index_of(s.take(s.len() - 1), c)
    }
}

pub proof fn lemma_last_index_of(s: Seq<char>, c: char)
    ensures
        -1 <= last_index_of(s, c) < s.len(),
        last_index_of(s, c) >= 0 ==> s[last_index_of(s, c)] == c,
        forall|j: int| last_index_of(s, c) < j < s.len() ==> s[j] != c,
    decreases s.len(),
{
    if s.len() == 0 {
    } else if s[s.len() - 1] == c {
    } else {
        lemma_last_index_of(s.take(s.len() - 1), c);
        assert forall|j: int| last_index_of(s, c) < j < s.len() implies s[j] != c by {
            if j < s.len() - 1 {
                assert(s.take(s.len() - 1)[j] == s[j]);
            }
        }
    }
}

/// The display name of a locator: everything after its last `/`, or the
/// whole locator if it has none.
pub open spec fn file_name_spec(s: Seq<char>) -> Seq<char> {
    s.subrange(last_index_of(s, '/') + 1, s.len() as int)
}

/// The display name of a locator: the characters after its last `/`, or
/// the whole locator if it contains none.
pub fn file_name(path: &str) -> (r: String)
    ensures
        r@ == file_name_spec(path@),
{
    let n = path.unicode_len();
    let cut = scan_after_last(path, '/');
    proof {
        lemma_last_index_of(path@, '/');
    }
    let sub = path.substring_char(cut, n);
    sub.to_owned()
}

/// The index one past the last occurrence of `c`, or `0` if `c` does not
/// occur.
fn scan_after_last(s: &str, c: char) -> (r: usize)
    ensures
        r == last_index_of(s@, c) + 1,
{
    let n = s.unicode_len();
    let mut cut: usize = 0;
    let mut j: usize = 0;
    while j < n
        invariant
            j <= n,
            n == s@.len(),
            cut <= j,
            cut == last_index_of(s@.take(j as int), c) + 1,
        decreases n - j,
    {
        proof {
            assert(s@.take(j as int + 1).take(j as int) =~= s@.take(j as int));
            lemma_last_index_of(s@.take(j as int), c);
        }
        if s.get_char(j) == c {
            cut = j + 1;
        }
        j = j + 1;
    }
    proof {
        assert(s@.take(n as int) =~= s@);
        lemma_last_index_of(s@, c);
    }
    cut
}

/// The extension of a locator: what follows the last `.` of its display
/// name, unless the name has no `.` or starts with its only one.
pub open spec fn ext_spec(path: Seq<char>) -> Option<Seq<char>> {
    let name = file_name_spec(path);
    let d = last_index_of(name, '.');
    if d <= 0 {
        None
    } else {
        Some(name.subrange(d + 1, name.len() as int))
    }
}

/// The extension of a locator, as `ext_spec` reads it.
pub fn ext_of(path: &str) -> (r: Option<String>)
    ensures
        match r {
            Some(e) => ext_spec(path@) == Some(e@),
            None => ext_spec(path@) is None,
        },
{
    let name = file_name(path);
    let n = name.as_str().unicode_len();
    let cut = scan_after_last(name.as_str(), '.');
    if cut <= 1 {
        proof {
            lemma_last_index_of(name@, '.');
        }
        None
    } else {
        proof {
            lemma_last_index_of(name@, '.');
        }
        let sub = name.as_str().substring_char(cut, n);
        Some(sub.to_owned())
    }
}

/// What is known about one media file's type: an audio type (its media-type
/// essence string, such as `audio/mpeg`), a checksum side file (its
/// extension), or nothing.
#[derive(Clone, Debug)]
pub enum MediaType {
    Audio(String),
    Checksum(String),
    Unknown,
}

/// A record that may be present in full, referenced by its database id,
/// or absent.
#[derive(Clone, Debug)]
pub enum MaybeFetched<T> {
    Id(i64),
    Record(T),
    Absent,
}

/// A media file: a locator (file path or URL) with its catalogue data.
#[derive(Debug)]
pub struct MediaFile {
    pub id: Option<i64>,
    pub file_size: Option<i64>,
    pub media_type: MediaType,
    pub location: String,
    pub directory: MaybeFetched<MediaDir>,
}

/// A directory containing media files.
#[derive(Debug)]
pub struct MediaDir {
    pub id: Option<i64>,
    pub last_modified: u64,
    pub location: String,
    pub files: Vec<MediaFile>,
}

/// The observable content of a `MediaType`: its variant and the characters
/// of its payload.
pub enum MediaTypeView {
    Audio(Seq<char>),
    Checksum(Seq<char>),
    Unknown,
}

impl MediaType {
    pub open spec fn view(&self) -> MediaTypeView {
        match self {
            MediaType::Audio(s) => MediaTypeView::Audio(s@),
            MediaType::Checksum(s) => MediaTypeView::Checksum(s@),
            MediaType::Unknown => MediaTypeView::Unknown,
        }
    }

    /// A copy with the same observable content.
    pub fn duplicate(&self) -> (r: Self)
        ensures
            r@ == self@,
    {
        match self {
            MediaType::Audio(s) => MediaType::Audio(s.clone()),
            MediaType::Checksum(s) => MediaType::Checksum(s.clone()),
            MediaType::Unknown => MediaType::Unknown,
        }
    }
}

impl Default for MediaType {
    fn default() -> (r: Self)
        ensures
            r is Unknown,
    {
        MediaType::Unknown
    }
}

impl<T> Default for MaybeFetched<T> {
    fn default() -> (r: Self)
        ensures
            r is Absent,
    {
        MaybeFetched::Absent
    }
}

/// A copied directory reference carries the same variant: the same id,
/// or a full record with the same catalogue fields and file count, or
/// nothing.
pub open spec fn directory_matches(a: MaybeFetched<MediaDir>, b: MaybeFetched<MediaDir>) -> bool {
    match (a, b) {
        (MaybeFetched::Id(i), MaybeFetched::Id(j)) => i == j,
        (MaybeFetched::Record(d), MaybeFetched::Record(e)) => {
            &&& e.id == d.id
            &&& e.last_modified == d.last_modified
            &&& e.location@ == d.location@
            &&& e.files@.len() == d.files@.len()
        },
        (MaybeFetched::Absent, MaybeFetched::Absent) => true,
        _ => false,
    }
}

impl MediaFile {
    /// A copy whose catalogue fields, locator and directory reference are
    /// those of `self`.
    pub fn duplicate(&self) -> (r: Self)
        ensures
            r.id == self.id,
            r.file_size == self.file_size,
            r.media_type@ == self.media_type@,
            r.location@ == self.location@,
            directory_matches(self.directory, r.directory),
        decreases *self,
    {
        let directory = match &self.directory {
            MaybeFetched::Id(i) => MaybeFetched::Id(*i),
            MaybeFetched::Record(d) => MaybeFetched::Record(d.duplicate()),
            MaybeFetched::Absent => MaybeFetched::Absent,
        };
        MediaFile {
            id: self.id,
            file_size: self.file_size,
            media_type: self.media_type.duplicate(),
            location: self.location.clone(),
            directory,
        }
    }
}

impl Default for MediaFile {
    fn default() -> (r: Self)
        ensures
            r.id is None,
            r.file_size is None,
            r.media_type is Unknown,
            r.location@.len() == 0,
            r.directory is Absent,
    {
        MediaFile {
            id: None,
            file_size: None,
            media_type: MediaType::Unknown,
            location: String::new(),
            directory: MaybeFetched::Absent,
        }
    }
}

impl Default for MediaDir {
    fn default() -> (r: Self)
        ensures
            r.id is None,
            r.last_modified == 0,
            r.location@.len() == 0,
            r.files@.len() == 0,
    {
        MediaDir {
            id: None,
            last_modified: 0,
            location: String::new(),
            files: Vec::new(),
        }
    }
}

impl MediaDir {
    /// A copy whose catalogue fields and file list match those of `self`.
    pub fn duplicate(&self) -> (r: Self)
        ensures
            r.id == self.id,
            r.last_modified == self.last_modified,
            r.location@ == self.location@,
            r.files@.len() == self.files@.len(),
            forall|i: int|
                0 <= i < self.files@.len() ==> {
                    &&& #[trigger] r.files@[i].id == self.files@[i].id
                    &&& r.files@[i].file_size == self.files@[i].file_size
                    &&& r.files@[i].media_type@ == self.files@[i].media_type@
                    &&& r.files@[i].location@ == self.files@[i].location@
                },
        decreases *self,
    {
        let mut files: Vec<MediaFile> = Vec::new();
        let mut i: usize = 0;
        while i < self.files.len()
            invariant
                i <= self.files@.len(),
                files@.len() == i,
                forall|j: int|
                    0 <= j < i ==> {
                        &&& #[trigger] files@[j].id == self.files@[j].id
                        &&& files@[j].file_size == self.files@[j].file_size
                        &&& files@[j].media_type@ == self.files@[j].media_type@
                        &&& files@[j].location@ == self.files@[j].location@
                    },
            decreases self.files@.len() - i,
        {
            files.push(self.files[i].duplicate());
            i = i + 1;
        }
        MediaDir {
            id: self.id,
            last_modified: self.last_modified,
            location: self.location.clone(),
            files,
        }
    }

    /// The files of this directory, in the order they were added.
    pub fn files(&self) -> (r: &Vec<MediaFile>)
        ensures
            r@ == self.files@,
    {
        &self.files
    }

    /// Append files to this directory, keeping earlier ones in place.
    pub fn extend(&mut self, files: Vec<MediaFile>)
        ensures
            final(self).files@ == old(self).files@ + files@,
            final(self).id == old(self).id,
            final(self).last_modified == old(self).last_modified,
            final(self).location@ == old(self).location@,
    {
        let mut rest = files;
        self.files.append(&mut rest);
    }
}

// ---------------------------------------------------------------------------
// Scanning a file tree for audio directories.
//
// The walk visits each directory's files before the directory itself, so
// the scanner collects files until it sees their parent directory, then
// folds them into a `MediaDir` if any of them was audio.
// ---------------------------------------------------------------------------
/// What `mime_guess` answers for a path: the type and essence strings of
/// the first guess, or nothing.
pub uninterp spec fn mime_guess_of(path: Seq<char>) -> Option<(Seq<char>, Seq<char>)>;

/// Relies on `mime_guess::from_path` and `MimeGuess::first`: the guess is
/// made from the path's extension alone, with no disk access, so it is a
/// function of the path text.
#[verifier::external_body]
pub fn guess_media_type(path: &str) -> (r: Option<(String, String)>)
    ensures
        match r {
            Some(p) => mime_guess_of(path@) == Some((p.0@, p.1@)),
            None => mime_guess_of(path@) is None,
        },
{
    mime_guess::from_path(std::path::Path::new(path)).first().map(
        |m| (m.type_().as_str().to_string(), m.essence_str().to_string()),
    )
}

/// The guess names an audio type.
pub open spec fn is_audio_guess(g: Option<(Seq<char>, Seq<char>)>) -> bool {
    g matches Some(p) && p.0 == "audio"@
}

/// The guess names a type the catalogue keeps: audio or text.
pub open spec fn is_kept_guess(g: Option<(Seq<char>, Seq<char>)>) -> bool {
    g matches Some(p) && (p.0 == "audio"@ || p.0 == "text"@)
}

/// The extension marks a checksum side file.
pub open spec fn is_checksum_ext(e: Option<Seq<char>>) -> bool {
    e matches Some(x) && (x == "md5"@ || x == "st5"@)
}

// The tally of kept media types, an association list viewed as a map
// from essence strings to counts.
pub open spec fn count_keys_unique(s: Seq<(String, u64)>) -> bool {
    forall|i: int, j: int|
        0 <= i < j < s.len() ==> (#[trigger] s[i]).0@ != (#[trigger] s[j]).0@
}

pub open spec fn counts_map(s: Seq<(String, u64)>) -> Map<Seq<char>, int>
    decreases s.len(),
{
    if s.len() == 0 {
        Map::empty()
    } else {
        counts_map(s.drop_last()).insert(s.last().0@, s.last().1 as int)
    }
}

/// The tally after one more sighting of `k`: up by one (until the counter
/// is full), or opened at one.
pub open spec fn bumped(m: Map<Seq<char>, int>, k: Seq<char>) -> Map<Seq<char>, int> {
    if m.contains_key(k) {
        m.insert(
            k,
            if m[k] < u64::MAX {
                m[k] + 1
            } else {
                m[k]
            },
        )
    } else {
        m.insert(k, 1)
    }
}

pub proof fn lemma_counts_map_domain(s: Seq<(String, u64)>, k: Seq<char>)
    ensures
        counts_map(s).contains_key(k) <==> exists|i: int|
            0 <= i < s.len() && (#[trigger] s[i]).0@ == k,
    decreases s.len(),
{
    if s.len() > 0 {
        lemma_counts_map_domain(s.drop_last(), k);
        if s.last().0@ == k {
            assert(s[s.len() - 1].0@ == k);
        } else if counts_map(s).contains_key(k) {
            let i = choose|i: int|
                0 <= i < s.drop_last().len() && (#[trigger] s.drop_last()[i]).0@ == k;
            assert(s[i].0@ == k);
        } else {
            assert forall|i: int| 0 <= i < s.len() implies (#[trigger] s[i]).0@ != k by {
                if i < s.len() - 1 {
                    assert(s.drop_last()[i] == s[i]);
                }
            }
        }
    }
}

pub proof fn lemma_counts_map_lookup(s: Seq<(String, u64)>, i: int)
    requires
        count_keys_unique(s),
        0 <= i < s.len(),
    ensures
        counts_map(s).contains_key(s[i].0@),
        counts_map(s)[s[i].0@] == s[i].1 as int,
    decreases s.len(),
{
    if i == s.len() - 1 {
        assert(s.last() == s[i]);
    } else {
        assert(count_keys_unique(s.drop_last())) by {
            assert(forall|a: int, b: int|
                0 <= a < b < s.drop_last().len() ==> (#[trigger] s.drop_last()[a]) == s[a]
                    && (#[trigger] s.drop_last()[b]) == s[b]);
        }
        assert(s.drop_last()[i] == s[i]);
        lemma_counts_map_lookup(s.drop_last(), i);
        assert(s[i].0@ != s.last().0@) by {
            assert(s.last() == s[s.len() - 1]);
        }
    }
}

pub proof fn lemma_counts_map_update(s: Seq<(String, u64)>, i: int, p: (String, u64))
    requires
        count_keys_unique(s),
        0 <= i < s.len(),
        p.0@ == s[i].0@,
    ensures
        count_keys_unique(s.update(i, p)),
        counts_map(s.update(i, p)) == counts_map(s).insert(p.0@, p.1 as int),
    decreases s.len(),
{
    let k = s[i].0@;
    let s2 = s.update(i, p);
    assert(count_keys_unique(s2)) by {
        assert(forall|a: int| 0 <= a < s.len() ==> (#[trigger] s2[a]).0@ == s[a].0@);
    }
    if i == s.len() - 1 {
        assert(s2.drop_last() =~= s.drop_last());
        assert(s2.last() == p);
        assert(counts_map(s).insert(k, p.1 as int) =~= counts_map(s.drop_last()).insert(
            k,
            p.1 as int,
        ));
    } else {
        assert(count_keys_unique(s.drop_last())) by {
            assert(forall|a: int, b: int|
                0 <= a < b < s.drop_last().len() ==> (#[trigger] s.drop_last()[a]) == s[a]
                    && (#[trigger] s.drop_last()[b]) == s[b]);
        }
        assert(s.drop_last()[i] == s[i]);
        lemma_counts_map_update(s.drop_last(), i, p);
        assert(s2.drop_last() =~= s.drop_last().update(i, p));
        assert(s2.last() == s.last());
        assert(s.last().0@ != k) by {
            assert(s.last() == s[s.len() - 1]);
        }
        assert(counts_map(s.drop_last()).insert(k, p.1 as int).insert(
            s.last().0@,
            s.last().1 as int,
        ) =~= counts_map(s).insert(k, p.1 as int));
    }
}

pub proof fn lemma_counts_map_push(s: Seq<(String, u64)>, p: (String, u64))
    requires
        count_keys_unique(s),
        forall|i: int| 0 <= i < s.len() ==> (#[trigger] s[i]).0@ != p.0@,
    ensures
        count_keys_unique(s.push(p)),
        counts_map(s.push(p)) == counts_map(s).insert(p.0@, p.1 as int),
{
    let s2 = s.push(p);
    assert(count_keys_unique(s2)) by {
        assert(forall|a: int| 0 <= a < s.len() ==> (#[trigger] s2[a]) == s[a]);
        assert(s2[s.len() as int] == p);
    }
    assert(s2.drop_last() =~= s);
    assert(s2.last() == p);
}

/// Row index of `essence` in the tally, if it is there.
fn find_count(counts: &Vec<(String, u64)>, essence: &String) -> (r: Option<usize>)
    ensures
        match r {
            Some(i) => i < counts@.len() && counts@[i as int].0@ == essence@,
            None => forall|i: int|
                0 <= i < counts@.len() ==> (#[trigger] counts@[i]).0@ != essence@,
        },
{
    let mut i: usize = 0;
    while i < counts.len()
        invariant
            i <= counts@.len(),
            forall|j: int| 0 <= j < i ==> (#[trigger] counts@[j]).0@ != essence@,
        decreases counts@.len() - i,
    {
        if str_is(&counts[i].0, essence.as_str()) {
            return Some(i);
        }
        i = i + 1;
    }
    None
}

/// A directories-first file-tree scan in progress: the files collected
/// since the last directory, whether one of them was audio, and a tally
/// of the kept media types seen so far.
#[derive(Debug)]
pub struct ImportScan {
    pub found_audio: bool,
    pub pending: Vec<MediaFile>,
    pub mime_counts: Vec<(String, u64)>,
}

impl ImportScan {
    /// Each essence has one row in the tally.
    pub open spec fn wf(&self) -> bool {
        count_keys_unique(self.mime_counts@)
    }

    /// The tally as the contracts see it.
    pub open spec fn counts(&self) -> Map<Seq<char>, int> {
        counts_map(self.mime_counts@)
    }

    pub fn new() -> (r: ImportScan)
        ensures
            r.wf(),
            !r.found_audio,
            r.pending@.len() == 0,
            r.counts() == Map::<Seq<char>, int>::empty(),
    {
        ImportScan { found_audio: false, pending: Vec::new(), mime_counts: Vec::new() }
    }

    /// One more sighting of a kept media type.
    fn bump_count(&mut self, essence: &String)
        requires
            old(self).wf(),
        ensures
            final(self).wf(),
            final(self).counts() == bumped(old(self).counts(), essence@),
            final(self).found_audio == old(self).found_audio,
            final(self).pending@ == old(self).pending@,
    {
        match find_count(&self.mime_counts, essence) {
            Some(i) => {
                proof {
                    lemma_counts_map_lookup(self.mime_counts@, i as int);
                }
                let c = self.mime_counts[i].1;
                let c2 = if c < u64::MAX {
                    c + 1
                } else {
                    c
                };
                let key = self.mime_counts[i].0.clone();
                proof {
                    lemma_counts_map_update(self.mime_counts@, i as int, (key, c2));
                }
                self.mime_counts[i] = (key, c2);
            },
            None => {
                let pair = (essence.clone(), 1u64);
                proof {
                    lemma_counts_map_domain(self.mime_counts@, essence@);
                    lemma_counts_map_push(self.mime_counts@, pair);
                }
                self.mime_counts.push(pair);
            },
        }
    }

    /// Fold one walked entry into the scan, guessing its media type from
    /// its path.
    pub fn add_path(&mut self, location: &str, file_size: Option<i64>, is_file: bool)
        requires
            old(self).wf(),
        ensures
            final(self).wf(),
            final(self).counts() == (if is_kept_guess(mime_guess_of(location@)) {
                bumped(old(self).counts(), mime_guess_of(location@)->Some_0.1)
            } else {
                old(self).counts()
            }),
            final(self).found_audio == (old(self).found_audio || is_audio_guess(
                mime_guess_of(location@),
            )),
            ({
                let kept: int = if is_kept_guess(mime_guess_of(location@)) {
                    1
                } else {
                    0
                };
                let summed: int = if is_file && is_checksum_ext(ext_spec(location@)) {
                    1
                } else {
                    0
                };
                let n0 = old(self).pending@.len() as int;
                &&& final(self).pending@.len() == n0 + kept + summed
                &&& forall|j: int|
                    0 <= j < n0 ==> final(self).pending@[j] == #[trigger] old(self).pending@[j]
                &&& kept == 1 ==> {
                    let f = final(self).pending@[n0];
                    &&& f.location@ == location@
                    &&& f.media_type@ == MediaTypeView::Audio(
                        mime_guess_of(location@)->Some_0.1,
                    )
                    &&& f.file_size == file_size
                    &&& f.id is None
                    &&& f.directory is Absent
                }
                &&& summed == 1 ==> {
                    let f = final(self).pending@[n0 + kept];
                    &&& f.location@ == location@
                    &&& f.media_type@ == MediaTypeView::Checksum(ext_spec(location@)->Some_0)
                    &&& f.file_size == file_size
                    &&& f.id is None
                    &&& f.directory is Absent
                }
            }),
    {
        let guess = guess_media_type(location);
        self.add_file(location, guess, file_size, is_file);
    }

    /// Fold one walked entry into the scan: a file with a kept media type
    /// joins the pending list, an audio guess marks the directory as an
    /// audio directory, and a regular file with a checksum extension joins
    /// as a checksum record.  The media-type guess is taken as an argument,
    /// exactly as `guess_media_type` answers it for the entry's path.
    pub fn add_file(
        &mut self,
        location: &str,
        guess: Option<(String, String)>,
        file_size: Option<i64>,
        is_file: bool,
    )
        requires
            old(self).wf(),
            match guess {
                Some(p) => mime_guess_of(location@) == Some((p.0@, p.1@)),
                None => mime_guess_of(location@) is None,
            },
        ensures
            final(self).wf(),
            final(self).counts() == (if is_kept_guess(mime_guess_of(location@)) {
                bumped(old(self).counts(), mime_guess_of(location@)->Some_0.1)
            } else {
                old(self).counts()
            }),
            final(self).found_audio == (old(self).found_audio || is_audio_guess(
                mime_guess_of(location@),
            )),
            ({
                let kept: int = if is_kept_guess(mime_guess_of(location@)) {
                    1
                } else {
                    0
                };
                let summed: int = if is_file && is_checksum_ext(ext_spec(location@)) {
                    1
                } else {
                    0
                };
                let n0 = old(self).pending@.len() as int;
                &&& final(self).pending@.len() == n0 + kept + summed
                &&& forall|j: int|
                    0 <= j < n0 ==> final(self).pending@[j] == #[trigger] old(self).pending@[j]
                &&& kept == 1 ==> {
                    let f = final(self).pending@[n0];
                    &&& f.location@ == location@
                    &&& f.media_type@ == MediaTypeView::Audio(
                        mime_guess_of(location@)->Some_0.1,
                    )
                    &&& f.file_size == file_size
                    &&& f.id is None
                    &&& f.directory is Absent
                }
                &&& summed == 1 ==> {
                    let f = final(self).pending@[n0 + kept];
                    &&& f.location@ == location@
                    &&& f.media_type@ == MediaTypeView::Checksum(ext_spec(location@)->Some_0)
                    &&& f.file_size == file_size
                    &&& f.id is None
                    &&& f.directory is Absent
                }
            }),
    {
        match &guess {
            Some(p) => {
                let audio = str_is(&p.0, "audio");
                let text = str_is(&p.0, "text");
                if audio {
                    self.found_audio = true;
                }
                if audio || text {
                    self.bump_count(&p.1);
                    self.pending.push(
                        MediaFile {
                            id: None,
                            file_size,
                            media_type: MediaType::Audio(p.1.clone()),
                            location: location.to_owned(),
                            directory: MaybeFetched::Absent,
                        },
                    );
                }
            },
            None => {},
        }
        if is_file {
            match ext_of(location) {
                Some(e) => {
                    if str_is(&e, "md5") || str_is(&e, "st5") {
                        self.pending.push(
                            MediaFile {
                                id: None,
                                file_size,
                                media_type: MediaType::Checksum(e),
                                location: location.to_owned(),
                                directory: MaybeFetched::Absent,
                            },
                        );
                    }
                },
                None => {},
            }
        }
    }

    /// Fold the directory that the pending files belong to.  When one of
    /// them was audio, they become a `MediaDir` record and the scan starts
    /// over; otherwise they are discarded.
    pub fn end_directory(&mut self, location: &str, last_modified: u64) -> (r: Option<
        MediaDir,
    >)
        ensures
            final(self).wf() == old(self).wf(),
            final(self).mime_counts@ == old(self).mime_counts@,
            !final(self).found_audio,
            final(self).pending@.len() == 0,
            old(self).found_audio ==> (r matches Some(d) && d.id is None && d.location@
                == location@ && d.last_modified == last_modified && d.files@ == old(
                self,
            ).pending@),
            !old(self).found_audio ==> r is None,
    {
        if self.found_audio {
            self.found_audio = false;
            let mut files: Vec<MediaFile> = Vec::new();
            core::mem::swap(&mut files, &mut self.pending);
            Some(
                MediaDir {
                    id: None,
                    last_modified,
                    location: location.to_owned(),
                    files,
                },
            )
        } else {
            self.pending = Vec::new();
            None
        }
    }
}

/// Character-for-character equality of a string and a literal.
fn str_is(a: &String, b: &str) -> (r: bool)
    ensures
        r == (a@ == b@),
{
    crate::pls::str_eq(a.as_str(), b)
}

} // verus!
