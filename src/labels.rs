//! Label codes: a table from index prefixes to codes, read from a JSON object,
//! and the lookup of the code whose prefix starts an index.

use vstd::prelude::*;
use crate::text::{upper_of, chars_of, uppercase};

verus! {

/// A table of label codes: pairs of an index prefix and its code, in table order.
pub struct LabelTable {
    pub entries: Vec<(String, String)>,
}

impl View for LabelTable {
    type V = Seq<(Seq<char>, Seq<char>)>;

    open spec fn view(&self) -> Seq<(Seq<char>, Seq<char>)> {
        self.entries@.map_values(|e: (String, String)| (e.0@, e.1@))
    }
}

/// What `serde_json::from_str` makes of a text as a map from strings to strings.
pub uninterp spec fn json_string_map(text: Seq<char>) -> Option<Map<Seq<char>, Seq<char>>>;

/// The map that a list of pairs gives, a later pair replacing an earlier one.
pub open spec fn pairs_map(e: Seq<(Seq<char>, Seq<char>)>) -> Map<Seq<char>, Seq<char>>
    decreases e.len(),
{
    if e.len() == 0 {
        Map::empty()
    } else {
        pairs_map(e.drop_last()).insert(e.last().0, e.last().1)
    }
}

/// No two pairs share a key.
pub open spec fn keys_distinct(e: Seq<(Seq<char>, Seq<char>)>) -> bool {
    forall|i: int, j: int| 0 <= i < j < e.len() ==> e[i].0 != e[j].0
}

/// Relies on `serde_json::from_str` into a `BTreeMap<String, String>`: it succeeds
/// exactly when the text is one JSON object whose values are all strings, and
/// the map's entries come out once per key.
#[verifier::external_body]
fn json_object_entries(text: &str) -> (r: Option<Vec<(String, String)>>)
    ensures
        r is Some <==> json_string_map(text@) is Some,
        r is Some ==> ({
            let e = r->0@.map_values(|p: (String, String)| (p.0@, p.1@));
            keys_distinct(e) && pairs_map(e) == json_string_map(text@)->0
        }),
{
    match serde_json::from_str::<std::collections::BTreeMap<String, String>>(text) {
        Ok(m) => Some(m.into_iter().collect()),
        Err(_) => None,
    }
}

/// Whether the prefix `key` starts `index`, both compared in upper case.
pub open spec fn prefix_matches(key: Seq<char>, index: Seq<char>) -> bool {
    upper_of(key).is_prefix_of(upper_of(index))
}

/// The result of a lookup: the code of entry `j`, where `j` is a matching entry
/// with the longest upper-case prefix, the first of those in table order.
pub open spec fn is_best_match(t: Seq<(Seq<char>, Seq<char>)>, index: Seq<char>, j: int) -> bool {
    &&& 0 <= j < t.len()
    &&& prefix_matches(t[j].0, index)
    &&& forall|i: int|
        0 <= i < t.len() && #[trigger] prefix_matches(t[i].0, index) ==> upper_of(t[i].0).len()
            <= upper_of(t[j].0).len()
    &&& forall|i: int|
        0 <= i < j && #[trigger] prefix_matches(t[i].0, index) ==> upper_of(t[i].0).len()
            < upper_of(t[j].0).len()
}

/// Whether some entry's prefix starts `index`.
pub open spec fn any_match(t: Seq<(Seq<char>, Seq<char>)>, index: Seq<char>) -> bool {
    exists|i: int| 0 <= i < t.len() && #[trigger] prefix_matches(t[i].0, index)
}

/// The code that a lookup of `index` in `t` gives (see `is_best_match`); the
/// empty string where no prefix matches.
pub open spec fn label_code_of(t: Seq<(Seq<char>, Seq<char>)>, index: Seq<char>) -> Seq<char> {
    if any_match(t, index) {
        t[choose|j: int| is_best_match(t, index, j)].1
    } else {
        seq![]
    }
}

/// At most one entry is the best match.
pub proof fn lemma_best_match_unique(t: Seq<(Seq<char>, Seq<char>)>, index: Seq<char>, a: int, b: int)
    requires
        is_best_match(t, index, a),
        is_best_match(t, index, b),
    ensures
        a == b,
{
    assert(prefix_matches(t[a].0, index));
    assert(prefix_matches(t[b].0, index));
}

impl LabelTable {
    /// An empty table: no index gets a code.
    pub fn new() -> (r: LabelTable)
        ensures
            r@ == Seq::<(Seq<char>, Seq<char>)>::empty(),
    {
        let r = LabelTable { entries: Vec::new() };
        assert(r@ =~= Seq::<(Seq<char>, Seq<char>)>::empty());
        r
    }

    /// Reads a table from the text of a JSON object from prefixes to codes. A
    /// text that is not such an object gives the empty table.
    pub fn parse_labelcodes(text: &str) -> (r: LabelTable)
        ensures
            json_string_map(text@) is None ==> r@ == Seq::<(Seq<char>, Seq<char>)>::empty(),
            json_string_map(text@) is Some ==> keys_distinct(r@) && pairs_map(r@)
                == json_string_map(text@)->0,
    {
        match json_object_entries(text) {
            Some(entries) => LabelTable { entries },
            None => LabelTable::new(),
        }
    }
}

/// Whether `k` starts `s`.
fn starts_with(s: &Vec<char>, k: &Vec<char>) -> (r: bool)
    ensures
        r == k@.is_prefix_of(s@),
{
    if k.len() > s.len() {
        return false;
    }
    let mut i: usize = 0;
    while i < k.len()
        invariant
            i <= k@.len() <= s@.len(),
            forall|j: int| 0 <= j < i ==> k@[j] == s@[j],
        decreases k@.len() - i,
    {
        if k[i] != s[i] {
            return false;
        }
        i = i + 1;
    }
    proof {
        assert(k@ =~= s@.subrange(0, k@.len() as int));
    }
    true
}

/// The label code of an index: the code of the entry whose prefix starts the
/// index, compared in upper case; where several do, the longest prefix wins and
/// then the first in table order. The empty string where none does.
pub fn find_label_code(label_dict: &LabelTable, index_str: &str) -> (r: String)
    ensures
        r@ == label_code_of(label_dict@, index_str@),
{
    let ghost t = label_dict@;
    let upper_index = uppercase(index_str);
    let ui = chars_of(upper_index.as_str());
    let mut best: Option<usize> = None;
    let mut best_len: usize = 0;
    let mut i: usize = 0;
    while i < label_dict.entries.len()
        invariant
            t == label_dict@,
            t.len() == label_dict.entries@.len(),
            ui@ == upper_of(index_str@),
            i <= t.len(),
            match best {
                None => forall|k: int| 0 <= k < i ==> !#[trigger] prefix_matches(t[k].0, index_str@),
                Some(j) => {
                    &&& j < i
                    &&& prefix_matches(t[j as int].0, index_str@)
                    &&& best_len == upper_of(t[j as int].0).len()
                    &&& forall|k: int|
                        0 <= k < i && #[trigger] prefix_matches(t[k].0, index_str@) ==> upper_of(
                            t[k].0,
                        ).len() <= best_len
                    &&& forall|k: int|
                        0 <= k < j && #[trigger] prefix_matches(t[k].0, index_str@) ==> upper_of(
                            t[k].0,
                        ).len() < best_len
                },
            },
        decreases t.len() - i,
    {
        let key = &label_dict.entries[i].0;
        proof {
            assert(t[i as int].0 == key@);
        }
        let upper_key = uppercase(key.as_str());
        let uk = chars_of(upper_key.as_str());
        if starts_with(&ui, &uk) {
            let better = match best {
                None => true,
                Some(_) => uk.len() > best_len,
            };
            if better {
                best = Some(i);
                best_len = uk.len();
            }
        }
        i = i + 1;
    }
    match best {
        None => {
            proof {
                assert(i == t.len());
                if any_match(t, index_str@) {
                    let k = choose|k: int| 0 <= k < t.len() && #[trigger] prefix_matches(t[k].0, index_str@);
                    assert(!prefix_matches(t[k].0, index_str@));
                }
            }
            String::new()
        },
        Some(j) => {
            proof {
                assert(is_best_match(t, index_str@, j as int));
                let c = choose|c: int| is_best_match(t, index_str@, c);
                lemma_best_match_unique(t, index_str@, c, j as int);
                assert(t[j as int].1 == label_dict.entries@[j as int].1@);
            }
            label_dict.entries[j].1.clone()
        },
    }
}

} // verus!
