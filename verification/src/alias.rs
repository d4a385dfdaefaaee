//! The alias table: a small mapping from short aliases to canonical entity
//! names, read from a JSON object text.  A supplied name prefixed with the
//! reserved marker `JP:` is resolved through the table; any other name, and
//! a marked alias the table does not know, passes through unchanged.

use vstd::prelude::*;
use vstd::string::StrSliceExecFns;

verus! {

/// The entries of the top-level JSON object that a text parses to, in
/// serde_json's object order (sorted by key, duplicate keys collapsed): each
/// key's characters, paired with the value's characters where the value is a
/// JSON string and nothing where it is not.  `None` when the text is not
/// valid JSON or its top level is not an object.  This is a function of the
/// text alone.
pub uninterp spec fn json_object_entries(text: Seq<char>) -> Option<
    Seq<(Seq<char>, Option<Seq<char>>)>,
>;

/// The character-level view of parsed entries.
pub open spec fn entries_view(es: Seq<(String, Option<String>)>) -> Seq<
    (Seq<char>, Option<Seq<char>>),
> {
    es.map_values(
        |e: (String, Option<String>)|
            (
                e.0@,
                match e.1 {
                    Some(s) => Some(s@),
                    None => None,
                },
            ),
    )
}

/// Relies on `serde_json::from_str`, `Value::as_object` and `Value::as_str`:
/// parses the text and hands out the top-level object's entries in object
/// order, each value reduced to its string content.
#[verifier::external_body]
fn parse_object_entries(text: &str) -> (r: Option<Vec<(String, Option<String>)>>)
    ensures
        (match r {
            Some(es) => json_object_entries(text@) == Some(entries_view(es@)),
            None => json_object_entries(text@) is None,
        }),
{
    let v: serde_json::Value = match serde_json::from_str(text) {
        Ok(v) => v,
        Err(_) => return None,
    };
    let obj = match v.as_object() {
        Some(o) => o,
        None => return None,
    };
    Some(obj.iter().map(|(k, w)| (k.clone(), w.as_str().map(|s| s.to_string()))).collect())
}

/// The alias pairs of a sequence of object entries: its string-valued
/// entries in order; entries whose value is not a string are skipped.
pub open spec fn alias_pairs_of(entries: Seq<(Seq<char>, Option<Seq<char>>)>) -> Seq<
    (Seq<char>, Seq<char>),
>
    decreases entries.len(),
{
    if entries.len() == 0 {
        Seq::empty()
    } else {
        let rest = alias_pairs_of(entries.drop_last());
        match entries.last().1 {
            Some(v) => rest.push((entries.last().0, v)),
            None => rest,
        }
    }
}

/// The character-level view of stored alias pairs.
pub open spec fn pairs_view(ps: Seq<(String, String)>) -> Seq<(Seq<char>, Seq<char>)> {
    ps.map_values(|p: (String, String)| (p.0@, p.1@))
}

/// The first pair whose alias matches, if any.
pub open spec fn lookup_spec(ps: Seq<(Seq<char>, Seq<char>)>, name: Seq<char>) -> Option<Seq<char>>
    decreases ps.len(),
{
    if ps.len() == 0 {
        None
    } else if ps[0].0 == name {
        Some(ps[0].1)
    } else {
        lookup_spec(ps.skip(1), name)
    }
}

/// A mapping from short aliases to canonical entity names.
pub struct AliasTable {
    pub pairs: Vec<(String, String)>,
}

impl AliasTable {
    /// An empty table: every lookup misses.
    pub fn new() -> (t: AliasTable)
        ensures
            t.pairs@.len() == 0,
    {
        AliasTable { pairs: Vec::new() }
    }

    /// Looks an alias up, returning the target of the first matching pair.
    pub fn lookup(&self, name: &String) -> (r: Option<String>)
        ensures
            (match r {
                Some(t) => lookup_spec(pairs_view(self.pairs@), name@) == Some(t@),
                None => lookup_spec(pairs_view(self.pairs@), name@) is None,
            }),
    {
        let n = self.pairs.len();
        let mut i: usize = 0;
        proof {
            assert(pairs_view(self.pairs@).skip(0) =~= pairs_view(self.pairs@));
        }
        while i < n
            invariant
                i <= n == self.pairs@.len(),
                lookup_spec(pairs_view(self.pairs@), name@) == lookup_spec(
                    pairs_view(self.pairs@).skip(i as int),
                    name@,
                ),
            decreases n - i,
        {
            let ghost suffix = pairs_view(self.pairs@).skip(i as int);
            proof {
                assert(suffix[0] == pairs_view(self.pairs@)[i as int]);
                assert(suffix.skip(1) =~= pairs_view(self.pairs@).skip(i as int + 1));
            }
            if self.pairs[i].0 == *name {
                return Some(self.pairs[i].1.clone());
            }
            i = i + 1;
        }
        None
    }
}

/// Parses a JSON object text into an [`AliasTable`].  Succeeds exactly when
/// the text is a JSON object, and then keeps exactly its string-valued
/// entries, in object order.
pub fn parse_aliases(text: &str) -> (r: Option<AliasTable>)
    ensures
        (match r {
            Some(t) => json_object_entries(text@) matches Some(es) && pairs_view(t.pairs@)
                == alias_pairs_of(es),
            None => json_object_entries(text@) is None,
        }),
{
    let es = match parse_object_entries(text) {
        Some(es) => es,
        None => return None,
    };
    let mut pairs: Vec<(String, String)> = Vec::new();
    let n = es.len();
    let mut i: usize = 0;
    while i < n
        invariant
            i <= n == es@.len(),
            pairs_view(pairs@) == alias_pairs_of(entries_view(es@).take(i as int)),
        decreases n - i,
    {
        let ghost pre = pairs_view(pairs@);
        match &es[i].1 {
            Some(v) => {
                let k = es[i].0.clone();
                let t = v.clone();
                pairs.push((k, t));
            },
            None => {},
        }
        proof {
            assert(entries_view(es@).take(i as int + 1).drop_last() =~= entries_view(es@).take(
                i as int,
            ));
            assert(entries_view(es@).take(i as int + 1).last() == entries_view(es@)[i as int]);
            match es@[i as int].1 {
                Some(v) => {
                    assert(pairs_view(pairs@) =~= pre.push((es@[i as int].0@, v@)));
                },
                None => {
                    assert(pairs_view(pairs@) =~= pre);
                },
            }
        }
        i = i + 1;
    }
    proof {
        assert(entries_view(es@).take(n as int) =~= entries_view(es@));
    }
    Some(AliasTable { pairs })
}

/// What resolving a supplied name means: a name carrying the reserved `JP:`
/// marker is looked up, without the marker, in the table and replaced by the
/// first matching target; any other name, and a marked alias the table does
/// not know, stays as it is.
pub open spec fn resolve_alias_spec(name: Seq<char>, ps: Seq<(Seq<char>, Seq<char>)>) -> Seq<
    char,
> {
    if name.len() >= 3 && name.subrange(0, 3) == seq!['J', 'P', ':'] {
        match lookup_spec(ps, name.skip(3)) {
            Some(t) => t,
            None => name,
        }
    } else {
        name
    }
}

/// Resolves a supplied name through the alias table, as
/// [`resolve_alias_spec`] describes.
pub fn resolve_alias(name: &str, aliases: &AliasTable) -> (r: String)
    ensures
        r@ == resolve_alias_spec(name@, pairs_view(aliases.pairs@)),
{
    let n = name.unicode_len();
    if n >= 3 {
        let c0 = name.get_char(0);
        let c1 = name.get_char(1);
        let c2 = name.get_char(2);
        if c0 == 'J' && c1 == 'P' && c2 == ':' {
            proof {
                assert(name@.subrange(0, 3) =~= seq!['J', 'P', ':']);
            }
            let stripped = name.substring_char(3, n).to_owned();
            proof {
                assert(stripped@ =~= name@.skip(3));
            }
            return match aliases.lookup(&stripped) {
                Some(t) => t,
                None => name.to_owned(),
            };
        }
        proof {
            assert(name@.subrange(0, 3) != seq!['J', 'P', ':']) by {
                if name@.subrange(0, 3) == seq!['J', 'P', ':'] {
                    assert(name@.subrange(0, 3)[0] == 'J' && name@.subrange(0, 3)[1] == 'P'
                        && name@.subrange(0, 3)[2] == ':');
                }
            }
        }
    }
    name.to_owned()
}

} // verus!
