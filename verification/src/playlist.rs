use vstd::prelude::*;

use crate::pls;
use crate::pls::{
    entries_map, file_at, keys_unique, lemma_entries_map_domain, lemma_entries_map_lookup,
    parse_spec, Entry, PlaylistModel,
};

verus! {

/// A parsed playlist whose files are handed out in entry order, first
/// entry first.
#[derive(Clone, Debug)]
pub struct Playlist {
    pub _has_header: bool,
    pub number_of_entries: u32,
    pub version: String,
    pub entries: Vec<(u32, Entry)>,
}

/// Marker for the playlist text reader.
pub struct PlsParser;

impl Playlist {
    /// Every entry number appears in at most one row.
    pub open spec fn wf(&self) -> bool {
        keys_unique(self.entries@)
    }

    /// The playlist as the contracts see it.
    pub open spec fn model(&self) -> PlaylistModel {
        PlaylistModel {
            has_header: self._has_header,
            number_of_entries: self.number_of_entries as nat,
            version: self.version@,
            entries: entries_map(self.entries@),
        }
    }

    /// Return a list of just the urls from the entries, first entry first.
    pub fn files(&self) -> (r: Vec<String>)
        requires
            self.wf(),
        ensures
            r@.len() == self.number_of_entries as int,
            forall|i: int|
                0 <= i < r@.len() ==> (#[trigger] r@[i])@ == file_at(
                    self.model(),
                    (i + 1) as u32,
                ),
    {
        let mut result: Vec<String> = Vec::new();
        let n = self.number_of_entries;
        let mut i: u32 = 0;
        while i < n
            invariant
                i <= n,
                n == self.number_of_entries,
                self.wf(),
                result@.len() == i as int,
                forall|j: int|
                    0 <= j < i as int ==> (#[trigger] result@[j])@ == file_at(
                        self.model(),
                        (j + 1) as u32,
                    ),
            decreases n - i,
        {
            let k = i + 1;
            match pls::find_entry(&self.entries, k) {
                Some(idx) => {
                    proof {
                        lemma_entries_map_lookup(self.entries@, idx as int);
                    }
                    result.push(self.entries[idx].1.file.clone());
                },
                None => {
                    proof {
                        lemma_entries_map_domain(self.entries@, k);
                    }
                    result.push(String::new());
                },
            }
            i = i + 1;
        }
        result
    }

    /// The entry stored under number `k`, if any.
    pub fn entry(&self, k: u32) -> (r: Option<&Entry>)
        requires
            self.wf(),
        ensures
            match r {
                Some(e) => self.model().entries.contains_key(k) && e.model()
                    == self.model().entries[k],
                None => !self.model().entries.contains_key(k),
            },
    {
        match pls::find_entry(&self.entries, k) {
            Some(i) => {
                proof {
                    lemma_entries_map_lookup(self.entries@, i as int);
                }
                Some(&self.entries[i].1)
            },
            None => {
                proof {
                    lemma_entries_map_domain(self.entries@, k);
                }
                None
            },
        }
    }
}

/// Parse `.pls` playlist text.  `Ok` holds exactly the playlist the wire
/// format describes; `Err` reports a missing header or a malformed numeric
/// field.
pub fn parse(input: &str) -> (r: Result<Playlist, String>)
    ensures
        match r {
            Ok(p) => parse_spec(input@) == Some(p.model()) && p.wf(),
            Err(_) => parse_spec(input@) is None,
        },
{
    match pls::parse(input) {
        Ok(q) => Ok(
            Playlist {
                _has_header: q.has_header,
                number_of_entries: q.number_of_entries,
                version: q.version,
                entries: q.entries,
            },
        ),
        Err(e) => Err(e),
    }
}

} // verus!
