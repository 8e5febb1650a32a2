//! Key-value metadata in the Java properties format, as `release` and
//! `os-release` files hold it.

use crate::text::chars_of;
use vstd::prelude::*;

verus! {

/// The key-value pairs that `java_properties::read` finds in a file with
/// these bytes, or `None` where it reports an error.
pub uninterp spec fn properties_of(contents: Seq<u8>) -> Option<Map<Seq<char>, Seq<char>>>;

/// The map that a list of pairs stands for. Where a key occurs twice, the
/// first pair counts.
pub open spec fn entries(pairs: Seq<(String, String)>) -> Map<Seq<char>, Seq<char>>
    decreases pairs.len(),
{
    if pairs.len() == 0 {
        Map::empty()
    } else {
        entries(pairs.skip(1)).insert(pairs[0].0@, pairs[0].1@)
    }
}

/// Calls `java_properties::read` on the bytes. The result is trusted to be
/// the pairs of the map that `read` returns, each key once and in no
/// particular order, and `None` where `read` returns an error.
#[verifier::external_body]
fn read_properties(contents: &Vec<u8>) -> (r: Option<Vec<(String, String)>>)
    ensures
        match r {
            Some(pairs) => properties_of(contents@) == Some(entries(pairs@)),
            None => properties_of(contents@) is None,
        },
{
    match java_properties::read(contents.as_slice()) {
        Ok(map) => Some(map.into_iter().collect()),
        Err(_) => None,
    }
}

/// The parsed contents of a properties file.
pub struct Properties {
    pairs: Vec<(String, String)>,
}

impl View for Properties {
    type V = Map<Seq<char>, Seq<char>>;

    closed spec fn view(&self) -> Map<Seq<char>, Seq<char>> {
        entries(self.pairs@)
    }
}

/// A key that no pair before `upto` holds is looked up in what follows.
proof fn lemma_entries_skip(pairs: Seq<(String, String)>, key: Seq<char>, upto: int)
    requires
        0 <= upto <= pairs.len(),
        forall|j: int| 0 <= j < upto ==> (#[trigger] pairs[j]).0@ != key,
    ensures
        entries(pairs).contains_key(key) == entries(pairs.skip(upto)).contains_key(key),
        entries(pairs).contains_key(key) ==> entries(pairs)[key] == entries(pairs.skip(upto))[key],
    decreases upto,
{
    if upto == 0 {
        assert(pairs.skip(0) == pairs);
    } else {
        assert(pairs[0].0@ != key);
        assert forall|j: int| 0 <= j < upto - 1 implies (#[trigger] pairs.skip(1)[j]).0@ != key by {
            assert(pairs.skip(1)[j] == pairs[j + 1]);
        }
        lemma_entries_skip(pairs.skip(1), key, upto - 1);
        assert(pairs.skip(1).skip(upto - 1) == pairs.skip(upto));
    }
}

impl Properties {
    /// Reads a properties file from its bytes.
    pub fn parse(contents: &Vec<u8>) -> (r: Option<Properties>)
        ensures
            match r {
                Some(p) => properties_of(contents@) == Some(p@),
                None => properties_of(contents@) is None,
            },
    {
        match read_properties(contents) {
            Some(pairs) => Some(Properties { pairs }),
            None => None,
        }
    }

    /// The value of `key`, where the file has one.
    pub fn get(&self, key: &str) -> (r: Option<Vec<char>>)
        ensures
            match r {
                Some(value) => self@.contains_key(key@) && value@ == self@[key@],
                None => !self@.contains_key(key@),
            },
    {
        let wanted = chars_of(key);
        let mut i: usize = 0;
        while i < self.pairs.len()
            invariant
                i <= self.pairs.len(),
                wanted@ == key@,
                forall|j: int| 0 <= j < i ==> (#[trigger] self.pairs@[j]).0@ != key@,
            decreases self.pairs.len() - i,
        {
            let name = chars_of(self.pairs[i].0.as_str());
            if crate::text::same_chars(&name, &wanted) {
                proof {
                    lemma_entries_skip(self.pairs@, key@, i as int);
                    assert(self.pairs@.skip(i as int)[0] == self.pairs@[i as int]);
                }
                return Some(chars_of(self.pairs[i].1.as_str()));
            }
            i += 1;
        }
        proof {
            lemma_entries_skip(self.pairs@, key@, self.pairs.len() as int);
            assert(self.pairs@.skip(self.pairs.len() as int).len() == 0);
        }
        None
    }
}

} // verus!
