//! Optional id-to-display-name tables loaded from the export's index files.

use vstd::prelude::*;
use crate::errors::MyError;
use crate::json;

verus! {

/// The table that a sequence of key/value entries denotes: a later entry for
/// the same key would win, though a well-formed mapping never holds two
/// entries for one key.
pub open spec fn table_map(entries: Seq<(String, String)>) -> Map<Seq<char>, Seq<char>>
    decreases entries.len(),
{
    if entries.len() == 0 {
        Map::empty()
    } else {
        table_map(entries.drop_last()).insert(entries.last().0@, entries.last().1@)
    }
}

proof fn lemma_table_map_contains(entries: Seq<(String, String)>, k: Seq<char>)
    ensures
        table_map(entries).contains_key(k) <==> exists|i: int|
            0 <= i < entries.len() && entries[i].0@ == k,
    decreases entries.len(),
{
    if entries.len() > 0 {
        lemma_table_map_contains(entries.drop_last(), k);
        if entries.last().0@ == k {
            assert(entries[entries.len() - 1].0@ == k);
        } else {
            if exists|i: int| 0 <= i < entries.len() && entries[i].0@ == k {
                let i = choose|i: int| 0 <= i < entries.len() && entries[i].0@ == k;
                assert(entries.drop_last()[i].0@ == k);
            }
        }
    }
}

proof fn lemma_table_map_value(entries: Seq<(String, String)>, i: int)
    requires
        0 <= i < entries.len(),
        forall|p: int, q: int| 0 <= p < q < entries.len() ==> entries[p].0@ != entries[q].0@,
    ensures
        table_map(entries).contains_key(entries[i].0@),
        table_map(entries)[entries[i].0@] == entries[i].1@,
    decreases entries.len(),
{
    if i < entries.len() - 1 {
        assert(entries.drop_last()[i] == entries[i]);
        lemma_table_map_value(entries.drop_last(), i);
        assert(entries.last().0@ != entries[i].0@);
    }
}

/// An id-to-display-name lookup table: keys unique, immutable once loaded.
pub struct NameMapping {
    entries: Vec<(String, String)>,
}

impl NameMapping {
    /// No two entries share a key.
    pub closed spec fn wf(&self) -> bool {
        forall|i: int, j: int|
            0 <= i < j < self.entries@.len() ==> self.entries@[i].0@ != self.entries@[j].0@
    }

    /// The mapping as a mathematical map from id to display name.
    pub closed spec fn as_map(&self) -> Map<Seq<char>, Seq<char>> {
        table_map(self.entries@)
    }

    /// The display name for an id, or `None` where the mapping lacks it.
    pub open spec fn spec_get(&self, k: Seq<char>) -> Option<Seq<char>> {
        if self.as_map().contains_key(k) {
            Some(self.as_map()[k])
        } else {
            None
        }
    }

    /// An empty mapping.
    pub fn new() -> (r: NameMapping)
        ensures
            r.wf(),
            r.as_map() == Map::<Seq<char>, Seq<char>>::empty(),
    {
        NameMapping { entries: Vec::new() }
    }

    /// Adds an entry for an id the mapping does not hold yet.
    pub fn insert(&mut self, key: String, value: String)
        requires
            old(self).wf(),
            !old(self).as_map().contains_key(key@),
        ensures
            final(self).wf(),
            final(self).as_map() == old(self).as_map().insert(key@, value@),
    {
        proof {
            lemma_table_map_contains(old(self).entries@, key@);
        }
        let ghost prev = self.entries@;
        self.entries.push((key, value));
        proof {
            assert(self.entries@.drop_last() =~= prev);
        }
    }

    /// Looks an id up, returning its display name where the mapping holds one.
    pub fn get(&self, key: &str) -> (r: Option<String>)
        requires
            self.wf(),
        ensures
            r matches Some(v) ==> self.spec_get(key@) == Some(v@),
            r is None ==> self.spec_get(key@) is None,
    {
        let k: String = key.to_owned();
        let n = self.entries.len();
        let mut i: usize = 0;
        while i < n
            invariant
                n == self.entries@.len(),
                i <= n,
                forall|j: int| 0 <= j < i ==> self.entries@[j].0@ != key@,
                k@ == key@,
                self.wf(),
            decreases n - i,
        {
            let pair = &self.entries[i];
            if pair.0 == k {
                proof {
                    lemma_table_map_value(self.entries@, i as int);
                }
                return Some(pair.1.clone());
            }
            i = i + 1;
        }
        proof {
            lemma_table_map_contains(self.entries@, key@);
        }
        None
    }
}

/// Parses the content of one index file, already read from disk.
///
/// `None` stands for an absent file, which is not an error: the mapping is
/// simply not available and name resolution falls back to synthetic labels.
/// A present file that does not parse as a flat string-to-string table is a
/// hard error: it indicates a corrupted or unexpected export.
pub fn load_mapping(content: Option<&str>) -> (r: Result<Option<NameMapping>, MyError>)
    ensures
        content is None ==> (r matches Ok(m) && m is None),
        content matches Some(text) ==> match json::json_table_of(text@) {
            Some(m) => (r matches Ok(om) && om matches Some(nm) && nm.wf() && nm.as_map() == m),
            None => (r matches Err(e) && e is Json),
        },
{
    match content {
        None => Ok(None),
        Some(text) => match json::parse_table(text) {
            None => Err(MyError::Json("index file is not a flat string-to-string table".to_owned())),
            Some(entries) => {
                let nm = NameMapping { entries };
                proof {
                    let m = json::json_table_of(text@)->Some_0;
                    assert forall|k: Seq<char>| #[trigger]
                        table_map(nm.entries@).contains_key(k) implies m.contains_key(k)
                        && table_map(nm.entries@)[k] == m[k] by {
                        lemma_table_map_contains(nm.entries@, k);
                        let i = choose|i: int|
                            0 <= i < nm.entries@.len() && nm.entries@[i].0@ == k;
                        lemma_table_map_value(nm.entries@, i);
                    };
                    assert forall|k: Seq<char>| #[trigger]
                        m.contains_key(k) implies table_map(nm.entries@).contains_key(k) by {
                        lemma_table_map_contains(nm.entries@, k);
                    };
                    assert(nm.as_map() =~= m);
                }
                Ok(Some(nm))
            },
        },
    }
}

/// Loads the two optional name mappings from the contents of the export's two
/// index files: the channel table first, then the guild table; the first
/// parse failure wins. An absent file yields `None` for its mapping.
pub fn load_mappings(channel_index: Option<&str>, guild_index: Option<&str>) -> (r: Result<
    (Option<NameMapping>, Option<NameMapping>),
    MyError,
>)
    ensures
        r matches Ok(ms) ==> {
            &&& match channel_index {
                None => ms.0 is None,
                Some(text) => ms.0 matches Some(nm) && nm.wf() && json::json_table_of(text@)
                    == Some(nm.as_map()),
            }
            &&& match guild_index {
                None => ms.1 is None,
                Some(text) => ms.1 matches Some(nm) && nm.wf() && json::json_table_of(text@)
                    == Some(nm.as_map()),
            }
        },
        r is Ok <==> (channel_index matches Some(t) ==> json::json_table_of(t@) is Some)
            && (guild_index matches Some(t) ==> json::json_table_of(t@) is Some),
        r matches Err(e) ==> e is Json,
{
    let channel_mapping = match load_mapping(channel_index) {
        Ok(m) => m,
        Err(e) => {
            return Err(e);
        },
    };
    let guild_mapping = match load_mapping(guild_index) {
        Ok(m) => m,
        Err(e) => {
            return Err(e);
        },
    };
    Ok((channel_mapping, guild_mapping))
}

} // verus!
