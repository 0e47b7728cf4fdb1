//! Configuration documents.  A document is a JSON object whose top-level
//! members matter to the merge; the values themselves are carried as their
//! compact JSON text and never interpreted.  Parsing leans on serde_json;
//! the merge and the re-serialization are this crate's own, verified.
use vstd::prelude::*;
use crate::errors::SyncError;
use crate::text::{append_str, chars_string, str_chars};

verus! {

// ---------------------------------------------------------------------
// JSON string escaping and document serialization, as specifications.
// ---------------------------------------------------------------------
/// The character standing for the hexadecimal digit `d`.
pub open spec fn hex_digit(d: nat) -> char
    recommends
        d < 16,
{
    if d == 0 {
        '0'
    } else if d == 1 {
        '1'
    } else if d == 2 {
        '2'
    } else if d == 3 {
        '3'
    } else if d == 4 {
        '4'
    } else if d == 5 {
        '5'
    } else if d == 6 {
        '6'
    } else if d == 7 {
        '7'
    } else if d == 8 {
        '8'
    } else if d == 9 {
        '9'
    } else if d == 10 {
        'a'
    } else if d == 11 {
        'b'
    } else if d == 12 {
        'c'
    } else if d == 13 {
        'd'
    } else if d == 14 {
        'e'
    } else {
        'f'
    }
}

/// How one character appears inside a JSON string literal.
pub open spec fn json_escape_char(c: char) -> Seq<char> {
    if c == '"' {
        seq!['\\', '"']
    } else if c == '\\' {
        seq!['\\', '\\']
    } else if c == '\n' {
        seq!['\\', 'n']
    } else if c == '\r' {
        seq!['\\', 'r']
    } else if c == '\t' {
        seq!['\\', 't']
    } else if (c as u32) < 32 {
        seq!['\\', 'u', '0', '0', hex_digit((c as u32) as nat / 16), hex_digit(
            (c as u32) as nat % 16,
        )]
    } else {
        seq![c]
    }
}

/// The body of a JSON string literal for `s`.
pub open spec fn json_escaped(s: Seq<char>) -> Seq<char>
    decreases s.len(),
{
    if s.len() == 0 {
        Seq::empty()
    } else {
        json_escaped(s.drop_last()) + json_escape_char(s.last())
    }
}

/// The JSON string literal for `s`, quotes included.
pub open spec fn json_quoted(s: Seq<char>) -> Seq<char> {
    seq!['"'] + json_escaped(s) + seq!['"']
}

/// One `"key":value` member, the value text standing as it is.
pub open spec fn member_text(p: (Seq<char>, Seq<char>)) -> Seq<char> {
    json_quoted(p.0) + seq![':'] + p.1
}

/// The members of a document, comma-separated.
pub open spec fn doc_body(pairs: Seq<(Seq<char>, Seq<char>)>) -> Seq<char>
    decreases pairs.len(),
{
    if pairs.len() == 0 {
        Seq::empty()
    } else {
        doc_body(pairs.drop_last()) + (if pairs.len() > 1 {
            seq![',']
        } else {
            Seq::empty()
        }) + member_text(pairs.last())
    }
}

/// The whole document: the members inside braces.
pub open spec fn doc_text(pairs: Seq<(Seq<char>, Seq<char>)>) -> Seq<char> {
    seq!['{'] + doc_body(pairs) + seq!['}']
}

// ---------------------------------------------------------------------
// Documents as key/value sequences and as maps.
// ---------------------------------------------------------------------
/// The character-level image of a vector of string pairs.
pub open spec fn pairs_view(pairs: Seq<(String, String)>) -> Seq<(Seq<char>, Seq<char>)> {
    Seq::new(pairs.len(), |i: int| (pairs[i].0@, pairs[i].1@))
}

/// No two members share a key.
pub open spec fn distinct_keys(s: Seq<(Seq<char>, Seq<char>)>) -> bool {
    forall|i: int, j: int| 0 <= i < j < s.len() ==> s[i].0 != s[j].0
}

/// Some member has key `k`.
pub open spec fn has_key(s: Seq<(Seq<char>, Seq<char>)>, k: Seq<char>) -> bool {
    exists|i: int| 0 <= i < s.len() && s[i].0 == k
}

/// The mapping a member sequence stands for, later members winning.
pub open spec fn doc_map(s: Seq<(Seq<char>, Seq<char>)>) -> Map<Seq<char>, Seq<char>>
    decreases s.len(),
{
    if s.len() == 0 {
        Map::empty()
    } else {
        doc_map(s.drop_last()).insert(s.last().0, s.last().1)
    }
}

proof fn lemma_doc_map_dom(s: Seq<(Seq<char>, Seq<char>)>, k: Seq<char>)
    ensures
        doc_map(s).contains_key(k) <==> has_key(s, k),
    decreases s.len(),
{
    if s.len() > 0 {
        lemma_doc_map_dom(s.drop_last(), k);
        if s.last().0 == k {
            assert(s[s.len() - 1].0 == k);
        } else {
            if doc_map(s).contains_key(k) {
                let i = choose|i: int| 0 <= i < s.len() - 1 && s.drop_last()[i].0 == k;
                assert(s[i].0 == k);
            }
            if has_key(s, k) {
                let i = choose|i: int| 0 <= i < s.len() && s[i].0 == k;
                assert(i < s.len() - 1);
                assert(s.drop_last()[i].0 == k);
            }
        }
    }
}

proof fn lemma_doc_map_at(s: Seq<(Seq<char>, Seq<char>)>, i: int)
    requires
        distinct_keys(s),
        0 <= i < s.len(),
    ensures
        doc_map(s).contains_key(s[i].0),
        doc_map(s)[s[i].0] == s[i].1,
    decreases s.len(),
{
    if i == s.len() - 1 {
    } else {
        assert(distinct_keys(s.drop_last())) by {
            assert(forall|x: int, y: int|
                0 <= x < y < s.len() - 1 ==> s.drop_last()[x] == s[x] && s.drop_last()[y] == s[y]);
        }
        lemma_doc_map_at(s.drop_last(), i);
        assert(s.drop_last()[i] == s[i]);
        assert(s[i].0 != s.last().0);
    }
}

// ---------------------------------------------------------------------
// The merge: local members overlay global ones, shallowly.
// ---------------------------------------------------------------------
/// The global members, each replaced by the local value when the local
/// document also has its key.
pub open spec fn overridden(g: Seq<(Seq<char>, Seq<char>)>, l: Seq<(Seq<char>, Seq<char>)>) -> Seq<
    (Seq<char>, Seq<char>),
> {
    Seq::new(
        g.len(),
        |i: int|
            if has_key(l, g[i].0) {
                (g[i].0, doc_map(l)[g[i].0])
            } else {
                g[i]
            },
    )
}

/// The local members whose keys the global document does not have, in
/// local order.
pub open spec fn appended_new(
    l: Seq<(Seq<char>, Seq<char>)>,
    g: Seq<(Seq<char>, Seq<char>)>,
) -> Seq<(Seq<char>, Seq<char>)>
    decreases l.len(),
{
    if l.len() == 0 {
        Seq::empty()
    } else {
        appended_new(l.drop_last(), g) + (if has_key(g, l.last().0) {
            Seq::empty()
        } else {
            seq![l.last()]
        })
    }
}

/// The merged member sequence: the global members, overlaid, then the new
/// local members.
pub open spec fn merge_pairs(g: Seq<(Seq<char>, Seq<char>)>, l: Seq<(Seq<char>, Seq<char>)>) -> Seq<
    (Seq<char>, Seq<char>),
> {
    overridden(g, l) + appended_new(l, g)
}

proof fn lemma_doc_map_concat(a: Seq<(Seq<char>, Seq<char>)>, b: Seq<(Seq<char>, Seq<char>)>)
    ensures
        doc_map(a + b) == doc_map(a).union_prefer_right(doc_map(b)),
    decreases b.len(),
{
    if b.len() == 0 {
        assert(a + b =~= a);
        assert(doc_map(a).union_prefer_right(doc_map(b)) =~= doc_map(a));
    } else {
        lemma_doc_map_concat(a, b.drop_last());
        assert((a + b).drop_last() =~= a + b.drop_last());
        assert((a + b).last() == b.last());
        assert(doc_map(a).union_prefer_right(doc_map(b.drop_last())).insert(b.last().0, b.last().1)
            =~= doc_map(a).union_prefer_right(doc_map(b.drop_last()).insert(b.last().0, b.last().1)));
    }
}

proof fn lemma_overridden_map(g: Seq<(Seq<char>, Seq<char>)>, l: Seq<(Seq<char>, Seq<char>)>)
    ensures
        forall|k: Seq<char>|
            #[trigger] doc_map(overridden(g, l)).contains_key(k) <==> doc_map(g).contains_key(k),
        forall|k: Seq<char>|
            doc_map(g).contains_key(k) ==> #[trigger] doc_map(overridden(g, l))[k] == (if doc_map(
                l,
            ).contains_key(k) {
                doc_map(l)[k]
            } else {
                doc_map(g)[k]
            }),
    decreases g.len(),
{
    if g.len() == 0 {
        assert(overridden(g, l) =~= Seq::<(Seq<char>, Seq<char>)>::empty());
    } else {
        let dl = g.drop_last();
        let ov = overridden(g, l);
        let ovdl = overridden(dl, l);
        lemma_overridden_map(dl, l);
        lemma_doc_map_dom(l, g.last().0);
        let lastp = if has_key(l, g.last().0) {
            (g.last().0, doc_map(l)[g.last().0])
        } else {
            g.last()
        };
        assert(ov.drop_last() =~= ovdl);
        assert(ov.last() == lastp);
        assert(doc_map(ov) == doc_map(ovdl).insert(lastp.0, lastp.1));
        assert(lastp.0 == g.last().0);
        assert forall|k: Seq<char>| #[trigger]
            doc_map(ov).contains_key(k) <==> doc_map(g).contains_key(k) by {
            assert(doc_map(ovdl).contains_key(k) <==> doc_map(dl).contains_key(k));
        }
        assert forall|k: Seq<char>| doc_map(g).contains_key(k) implies #[trigger] doc_map(ov)[k]
            == (if doc_map(l).contains_key(k) {
            doc_map(l)[k]
        } else {
            doc_map(g)[k]
        }) by {
            if k == g.last().0 {
                assert(doc_map(ov)[k] == lastp.1);
                assert(doc_map(g)[k] == g.last().1);
            } else {
                assert(doc_map(ovdl).contains_key(k) <==> doc_map(dl).contains_key(k));
                assert(doc_map(dl).contains_key(k));
                assert(doc_map(ovdl)[k] == (if doc_map(l).contains_key(k) {
                    doc_map(l)[k]
                } else {
                    doc_map(dl)[k]
                }));
                assert(doc_map(ov)[k] == doc_map(ovdl)[k]);
                assert(doc_map(g)[k] == doc_map(dl)[k]);
            }
        }
    }
}

proof fn lemma_appended_new_map(l: Seq<(Seq<char>, Seq<char>)>, g: Seq<(Seq<char>, Seq<char>)>)
    ensures
        forall|k: Seq<char>|
            #[trigger] doc_map(appended_new(l, g)).contains_key(k) <==> (doc_map(l).contains_key(k)
                && !has_key(g, k)),
        forall|k: Seq<char>|
            #[trigger] doc_map(appended_new(l, g)).contains_key(k) ==> doc_map(appended_new(l, g))[k]
                == doc_map(l)[k],
    decreases l.len(),
{
    if l.len() == 0 {
        assert(appended_new(l, g) =~= Seq::<(Seq<char>, Seq<char>)>::empty());
    } else {
        let dl = l.drop_last();
        let ap = appended_new(l, g);
        let apdl = appended_new(dl, g);
        lemma_appended_new_map(dl, g);
        lemma_doc_map_dom(g, l.last().0);
        if has_key(g, l.last().0) {
            assert(ap =~= apdl);
            assert forall|k: Seq<char>| #[trigger]
                doc_map(ap).contains_key(k) <==> (doc_map(l).contains_key(k) && !has_key(
                    g,
                    k,
                )) by {
                assert(doc_map(apdl).contains_key(k) <==> (doc_map(dl).contains_key(k) && !has_key(
                    g,
                    k,
                )));
                if k == l.last().0 {
                    assert(has_key(g, k));
                }
            }
            assert forall|k: Seq<char>| #[trigger]
                doc_map(ap).contains_key(k) implies doc_map(ap)[k] == doc_map(l)[k] by {
                assert(doc_map(apdl).contains_key(k) <==> (doc_map(dl).contains_key(k) && !has_key(
                    g,
                    k,
                )));
                assert(k != l.last().0);
                assert(doc_map(apdl)[k] == doc_map(dl)[k]);
            }
        } else {
            assert(ap.drop_last() =~= apdl);
            assert(ap.last() == l.last());
            assert(ap.len() > 0);
            assert(doc_map(ap) == doc_map(apdl).insert(l.last().0, l.last().1));
            assert forall|k: Seq<char>| #[trigger]
                doc_map(ap).contains_key(k) <==> (doc_map(l).contains_key(k) && !has_key(
                    g,
                    k,
                )) by {
                assert(doc_map(apdl).contains_key(k) <==> (doc_map(dl).contains_key(k) && !has_key(
                    g,
                    k,
                )));
            }
            assert forall|k: Seq<char>| #[trigger]
                doc_map(ap).contains_key(k) implies doc_map(ap)[k] == doc_map(l)[k] by {
                assert(doc_map(apdl).contains_key(k) <==> (doc_map(dl).contains_key(k) && !has_key(
                    g,
                    k,
                )));
                if k != l.last().0 {
                    assert(doc_map(apdl).contains_key(k));
                    assert(doc_map(apdl)[k] == doc_map(dl)[k]);
                }
            }
        }
    }
}

/// The merge law: merging yields exactly the global mapping overlaid by
/// the local one, the local value winning on every shared key.
pub proof fn lemma_merge_overlays(g: Seq<(Seq<char>, Seq<char>)>, l: Seq<(Seq<char>, Seq<char>)>)
    ensures
        doc_map(merge_pairs(g, l)) == doc_map(g).union_prefer_right(doc_map(l)),
{
    lemma_doc_map_concat(overridden(g, l), appended_new(l, g));
    lemma_overridden_map(g, l);
    lemma_appended_new_map(l, g);
    assert(doc_map(merge_pairs(g, l)) =~= doc_map(g).union_prefer_right(doc_map(l))) by {
        assert forall|k: Seq<char>| #[trigger]
            doc_map(merge_pairs(g, l)).contains_key(k) <==> doc_map(g).union_prefer_right(
                doc_map(l),
            ).contains_key(k) by {
            lemma_doc_map_dom(g, k);
            lemma_doc_map_dom(l, k);
        }
        assert forall|k: Seq<char>|
            doc_map(merge_pairs(g, l)).contains_key(k) implies #[trigger] doc_map(
            merge_pairs(g, l),
        )[k] == doc_map(g).union_prefer_right(doc_map(l))[k] by {
            lemma_doc_map_dom(g, k);
            lemma_doc_map_dom(l, k);
        }
    }
}

// ---------------------------------------------------------------------
// Parsing, through serde_json.
// ---------------------------------------------------------------------
/// Whether serde_json::from_str accepts `s` as JSON.
pub uninterp spec fn json_is_valid(s: Seq<char>) -> bool;

/// What parsing `s` as a JSON object document yields: each top-level
/// member as its key and the compact JSON text of its value, in the order
/// the parsed map iterates; `None` when `s` is valid JSON but not an
/// object.
pub uninterp spec fn parsed_object(s: Seq<char>) -> Option<Seq<(Seq<char>, Seq<char>)>>;

/// How a parse attempt can end.
enum ParseOutcome {
    Object(Vec<(String, String)>),
    NotObject,
    Invalid,
}

/// Relies on serde_json::from_str and serde_json::Value::to_string: parses
/// the document, and hands each top-level member out as its key and its
/// value's compact JSON text.  A serde_json map iterates sorted by key, so
/// the keys come out pairwise distinct, in one deterministic order.
#[verifier::external_body]
fn parse_object_raw(text: &str) -> (r: ParseOutcome)
    ensures
        match r {
            ParseOutcome::Invalid => !json_is_valid(text@),
            ParseOutcome::NotObject => json_is_valid(text@) && parsed_object(text@) is None,
            ParseOutcome::Object(pairs) => json_is_valid(text@) && parsed_object(text@) == Some(
                pairs_view(pairs@),
            ) && distinct_keys(pairs_view(pairs@)),
        },
{
    match serde_json::from_str::<serde_json::Value>(text) {
        Err(_) => ParseOutcome::Invalid,
        Ok(serde_json::Value::Object(members)) => ParseOutcome::Object(
            members.into_iter().map(|(k, v)| (k, v.to_string())).collect(),
        ),
        Ok(_) => ParseOutcome::NotObject,
    }
}

// ---------------------------------------------------------------------
// The document type.
// ---------------------------------------------------------------------
/// A parsed configuration document: its top-level members in order, keys
/// pairwise distinct, values carried as their compact JSON text.
pub struct JsonDoc {
    pairs: Vec<(String, String)>,
}

impl JsonDoc {
    /// The members, in order, at the character level.
    pub closed spec fn pairs_seq(&self) -> Seq<(Seq<char>, Seq<char>)> {
        pairs_view(self.pairs@)
    }

    /// Validity: keys pairwise distinct.
    pub closed spec fn wf(&self) -> bool {
        distinct_keys(pairs_view(self.pairs@))
    }

    /// The mapping the document stands for.
    pub open spec fn map_view(&self) -> Map<Seq<char>, Seq<char>> {
        doc_map(self.pairs_seq())
    }

    /// A document with no members.
    pub fn empty() -> (r: JsonDoc)
        ensures
            r.wf(),
            r.pairs_seq() == Seq::<(Seq<char>, Seq<char>)>::empty(),
    {
        let d = JsonDoc { pairs: Vec::new() };
        proof {
            assert(pairs_view(d.pairs@) =~= Seq::<(Seq<char>, Seq<char>)>::empty());
        }
        d
    }

    /// A document with the one member `key: value_text`.
    pub fn singleton(key: &String, value_text: &String) -> (r: JsonDoc)
        ensures
            r.wf(),
            r.pairs_seq() == seq![(key@, value_text@)],
    {
        let mut pairs: Vec<(String, String)> = Vec::new();
        pairs.push((key.clone(), value_text.clone()));
        let d = JsonDoc { pairs };
        proof {
            assert(d.pairs_seq() =~= seq![(key@, value_text@)]);
        }
        d
    }

    /// Parses `text` as a configuration document; `path` only names the
    /// document in the error.  Malformed JSON is `JsonConfig`; valid JSON
    /// that is not an object is `NotAnObject`.
    pub fn parse(text: &str, path: &str) -> (r: Result<JsonDoc, SyncError>)
        ensures
            match r {
                Ok(d) => d.wf() && json_is_valid(text@) && parsed_object(text@) == Some(
                    d.pairs_seq(),
                ),
                Err(e) => match e {
                    SyncError::JsonConfig { path: p } => !json_is_valid(text@) && p@ == path@,
                    SyncError::NotAnObject => json_is_valid(text@) && parsed_object(text@)
                        is None,
                    _ => false,
                },
            },
    {
        match parse_object_raw(text) {
            ParseOutcome::Object(pairs) => Ok(JsonDoc { pairs }),
            ParseOutcome::NotObject => Err(SyncError::NotAnObject),
            ParseOutcome::Invalid => Err(SyncError::JsonConfig { path: path.to_owned() }),
        }
    }

    /// A borrow of the members, in order.
    pub fn members(&self) -> (r: &Vec<(String, String)>)
        ensures
            pairs_view(r@) == self.pairs_seq(),
    {
        &self.pairs
    }

    /// The value text stored under `key`, if any.
    pub fn get(&self, key: &String) -> (r: Option<&String>)
        requires
            self.wf(),
        ensures
            match r {
                Some(v) => self.map_view().contains_key(key@) && v@ == self.map_view()[key@],
                None => !self.map_view().contains_key(key@),
            },
    {
        let mut i: usize = 0;
        while i < self.pairs.len()
            invariant
                i <= self.pairs@.len(),
                self.wf(),
                forall|j: int| 0 <= j < i ==> pairs_view(self.pairs@)[j].0 != key@,
            decreases self.pairs@.len() - i,
        {
            if self.pairs[i].0 == *key {
                proof {
                    assert(pairs_view(self.pairs@)[i as int].0 == key@);
                    lemma_doc_map_at(pairs_view(self.pairs@), i as int);
                }
                return Some(&self.pairs[i].1);
            }
            proof {
                assert(pairs_view(self.pairs@)[i as int].0 == self.pairs@[i as int].0@);
            }
            i = i + 1;
        }
        proof {
            lemma_doc_map_dom(pairs_view(self.pairs@), key@);
        }
        None
    }

    /// The shallow merge: `self`\'s members with `local`\'s values winning
    /// on shared keys, then `local`\'s new members appended in their order.
    /// The result maps every key to the local value where the local
    /// document has the key, and to the global value elsewhere.
    pub fn merge(&self, local: &JsonDoc) -> (r: JsonDoc)
        requires
            self.wf(),
            local.wf(),
        ensures
            r.wf(),
            r.pairs_seq() == merge_pairs(self.pairs_seq(), local.pairs_seq()),
            r.map_view() == self.map_view().union_prefer_right(local.map_view()),
    {
        let ghost g = self.pairs_seq();
        let ghost l = local.pairs_seq();
        let mut out: Vec<(String, String)> = Vec::new();
        proof {
            assert(pairs_view(out@) =~= overridden(g, l).take(0));
        }
        let mut i: usize = 0;
        while i < self.pairs.len()
            invariant
                i <= self.pairs@.len(),
                self.wf(),
                local.wf(),
                g == self.pairs_seq(),
                l == local.pairs_seq(),
                pairs_view(out@) == overridden(g, l).take(i as int),
            decreases self.pairs@.len() - i,
        {
            let key = self.pairs[i].0.clone();
            proof {
                assert(g[i as int].0 == key@);
                lemma_doc_map_dom(l, key@);
            }
            let value = match local.get(&key) {
                Some(v) => v.clone(),
                None => self.pairs[i].1.clone(),
            };
            proof {
                assert((key@, value@) == overridden(g, l)[i as int]);
            }
            let ghost oldout = out@;
            out.push((key, value));
            proof {
                assert(pairs_view(oldout).len() == oldout.len());
                assert(oldout.len() == i);
                assert forall|k: int| 0 <= k < i + 1 implies pairs_view(out@)[k] == overridden(
                    g,
                    l,
                ).take(i + 1)[k] by {
                    if k < i {
                        assert(out@[k] == oldout[k]);
                        assert(pairs_view(oldout)[k] == overridden(g, l).take(i as int)[k]);
                    } else {
                        assert(out@[k] == (key, value));
                    }
                }
                assert(pairs_view(out@) =~= overridden(g, l).take(i + 1));
            }
            i = i + 1;
        }
        proof {
            assert(overridden(g, l).take(g.len() as int) =~= overridden(g, l));
            assert(appended_new(l.take(0), g) =~= Seq::<(Seq<char>, Seq<char>)>::empty());
            assert(pairs_view(out@) =~= overridden(g, l) + appended_new(l.take(0), g));
        }
        let mut j: usize = 0;
        while j < local.pairs.len()
            invariant
                j <= local.pairs@.len(),
                self.wf(),
                local.wf(),
                g == self.pairs_seq(),
                l == local.pairs_seq(),
                pairs_view(out@) == overridden(g, l) + appended_new(l.take(j as int), g),
            decreases local.pairs@.len() - j,
        {
            let key = local.pairs[j].0.clone();
            proof {
                assert(l[j as int].0 == key@);
                lemma_doc_map_dom(g, key@);
                assert(l.take(j + 1).drop_last() =~= l.take(j as int));
                assert(l.take(j + 1).last() == l[j as int]);
            }
            match self.get(&key) {
                Some(_) => {
                    proof {
                        assert(has_key(g, l[j as int].0));
                        assert(appended_new(l.take(j + 1), g) =~= appended_new(
                            l.take(j as int),
                            g,
                        ));
                    }
                },
                None => {
                    let value = local.pairs[j].1.clone();
                    proof {
                        assert(!has_key(g, l[j as int].0));
                        assert((key@, value@) == l[j as int]);
                    }
                    let ghost oldout = out@;
                    out.push((key, value));
                    proof {
                        assert(appended_new(l.take(j + 1), g) =~= appended_new(
                            l.take(j as int),
                            g,
                        ).push(l[j as int]));
                        let target = overridden(g, l) + appended_new(l.take(j + 1), g);
                        assert(pairs_view(oldout).len() == oldout.len());
                        assert(oldout.len() == overridden(g, l).len() + appended_new(
                            l.take(j as int),
                            g,
                        ).len());
                        assert(target.len() == oldout.len() + 1);
                        assert forall|k: int|
                            0 <= k < pairs_view(out@).len() implies pairs_view(out@)[k]
                            == target[k] by {
                            if k < oldout.len() {
                                assert(out@[k] == oldout[k]);
                                assert(pairs_view(oldout)[k] == (overridden(g, l) + appended_new(
                                    l.take(j as int),
                                    g,
                                ))[k]);
                                assert(target[k] == (overridden(g, l) + appended_new(
                                    l.take(j as int),
                                    g,
                                ))[k]);
                            } else {
                                assert(out@[k] == (key, value));
                                assert(target[k] == l[j as int]);
                            }
                        }
                        assert(pairs_view(out@) =~= target);
                    }
                },
            }
            j = j + 1;
        }
        proof {
            assert(l.take(l.len() as int) =~= l);
        }
        let r = JsonDoc { pairs: out };
        proof {
            lemma_appended_new_distinct(l, g);
            lemma_merge_distinct(g, l);
            lemma_merge_overlays(g, l);
        }
        r
    }

    /// The document re-serialized: the members in order, inside braces.
    pub fn to_json_text(&self) -> (r: String)
        ensures
            r@ == doc_text(self.pairs_seq()),
    {
        let ghost pv = self.pairs_seq();
        let mut out: Vec<char> = Vec::new();
        out.push('{');
        proof {
            assert(doc_body(pv.take(0)) =~= Seq::<char>::empty());
            assert(out@ =~= seq!['{'] + doc_body(pv.take(0)));
        }
        let mut i: usize = 0;
        while i < self.pairs.len()
            invariant
                i <= self.pairs@.len(),
                pv == self.pairs_seq(),
                out@ == seq!['{'] + doc_body(pv.take(i as int)),
            decreases self.pairs@.len() - i,
        {
            if i > 0 {
                out.push(',');
            }
            append_quoted(&mut out, &self.pairs[i].0);
            out.push(':');
            append_str(&mut out, self.pairs[i].1.as_str());
            proof {
                assert(pv.take(i + 1).drop_last() =~= pv.take(i as int));
                assert(pv.take(i + 1).last() == pv[i as int]);
                assert(pv[i as int] == (self.pairs@[i as int].0@, self.pairs@[i as int].1@));
                if i > 0 {
                    assert(out@ =~= seq!['{'] + (doc_body(pv.take(i as int)) + seq![',']
                        + member_text(pv[i as int])));
                } else {
                    assert(out@ =~= seq!['{'] + (doc_body(pv.take(i as int)) + member_text(
                        pv[i as int],
                    )));
                }
                assert(out@ =~= seq!['{'] + doc_body(pv.take(i + 1)));
            }
            i = i + 1;
        }
        out.push('}');
        proof {
            assert(pv.take(pv.len() as int) =~= pv);
            assert(out@ =~= doc_text(pv));
        }
        chars_string(&out)
    }
}

proof fn lemma_appended_new_distinct(l: Seq<(Seq<char>, Seq<char>)>, g: Seq<(Seq<char>, Seq<char>)>)
    requires
        distinct_keys(l),
    ensures
        distinct_keys(appended_new(l, g)),
        forall|idx: int|
            0 <= idx < appended_new(l, g).len() ==> has_key(l, #[trigger] appended_new(l, g)[idx].0)
                && !has_key(g, appended_new(l, g)[idx].0),
    decreases l.len(),
{
    if l.len() == 0 {
        assert(appended_new(l, g) =~= Seq::<(Seq<char>, Seq<char>)>::empty());
    } else {
        let dl = l.drop_last();
        let ap = appended_new(l, g);
        let apdl = appended_new(dl, g);
        assert(distinct_keys(dl)) by {
            assert(forall|x: int, y: int|
                0 <= x < y < dl.len() ==> dl[x] == l[x] && dl[y] == l[y]);
        }
        lemma_appended_new_distinct(dl, g);
        assert(forall|idx: int|
            0 <= idx < apdl.len() ==> has_key(l, #[trigger] apdl[idx].0)) by {
            assert forall|idx: int| 0 <= idx < apdl.len() implies has_key(
                l,
                #[trigger] apdl[idx].0,
            ) by {
                let w = choose|w: int| 0 <= w < dl.len() && dl[w].0 == apdl[idx].0;
                assert(l[w].0 == apdl[idx].0);
            }
        }
        if has_key(g, l.last().0) {
            assert(ap =~= apdl);
        } else {
            assert(ap.drop_last() =~= apdl);
            assert(ap.last() == l.last());
            assert(forall|idx: int| 0 <= idx < ap.len() - 1 ==> ap[idx] == apdl[idx]);
            assert(distinct_keys(ap)) by {
                assert forall|x: int, y: int| 0 <= x < y < ap.len() implies ap[x].0 != ap[y].0 by {
                    if y == ap.len() - 1 {
                        let w = choose|w: int| 0 <= w < dl.len() && dl[w].0 == apdl[x].0;
                        assert(l[w].0 == ap[x].0);
                        assert(l[w].0 != l.last().0);
                    }
                }
            }
        }
    }
}

proof fn lemma_merge_distinct(g: Seq<(Seq<char>, Seq<char>)>, l: Seq<(Seq<char>, Seq<char>)>)
    requires
        distinct_keys(g),
        distinct_keys(l),
    ensures
        distinct_keys(merge_pairs(g, l)),
{
    let ov = overridden(g, l);
    let ap = appended_new(l, g);
    lemma_appended_new_distinct(l, g);
    assert(forall|i: int| 0 <= i < ov.len() ==> (#[trigger] ov[i].0) == g[i].0);
    assert forall|x: int, y: int|
        0 <= x < y < merge_pairs(g, l).len() implies merge_pairs(g, l)[x].0 != merge_pairs(
        g,
        l,
    )[y].0 by {
        let m = merge_pairs(g, l);
        if y < ov.len() {
            assert(m[x].0 == g[x].0 && m[y].0 == g[y].0);
        } else if x >= ov.len() {
            assert(m[x] == ap[x - ov.len()] && m[y] == ap[y - ov.len()]);
        } else {
            assert(m[x].0 == g[x].0);
            assert(m[y] == ap[y - ov.len()]);
            assert(!has_key(g, ap[y - ov.len()].0));
            assert(has_key(g, g[x].0));
        }
    }
}

fn hex_digit_exec(d: u32) -> (r: char)
    requires
        d < 16,
    ensures
        r == hex_digit(d as nat),
{
    if d == 0 {
        '0'
    } else if d == 1 {
        '1'
    } else if d == 2 {
        '2'
    } else if d == 3 {
        '3'
    } else if d == 4 {
        '4'
    } else if d == 5 {
        '5'
    } else if d == 6 {
        '6'
    } else if d == 7 {
        '7'
    } else if d == 8 {
        '8'
    } else if d == 9 {
        '9'
    } else if d == 10 {
        'a'
    } else if d == 11 {
        'b'
    } else if d == 12 {
        'c'
    } else if d == 13 {
        'd'
    } else if d == 14 {
        'e'
    } else {
        'f'
    }
}

/// Appends the JSON string literal for `s`, quotes included.
pub(crate) fn append_quoted(out: &mut Vec<char>, s: &String)
    ensures
        final(out)@ == old(out)@ + json_quoted(s@),
{
    out.push('"');
    let cs = str_chars(s.as_str());
    let mut i: usize = 0;
    proof {
        assert(json_escaped(cs@.take(0)) =~= Seq::<char>::empty());
        assert(out@ =~= old(out)@ + seq!['"'] + json_escaped(cs@.take(0)));
    }
    while i < cs.len()
        invariant
            i <= cs@.len(),
            cs@ == s@,
            out@ == old(out)@ + seq!['"'] + json_escaped(cs@.take(i as int)),
        decreases cs@.len() - i,
    {
        let c = cs[i];
        if c == '"' {
            out.push('\\');
            out.push('"');
        } else if c == '\\' {
            out.push('\\');
            out.push('\\');
        } else if c == '\n' {
            out.push('\\');
            out.push('n');
        } else if c == '\r' {
            out.push('\\');
            out.push('r');
        } else if c == '\t' {
            out.push('\\');
            out.push('t');
        } else if (c as u32) < 32 {
            out.push('\\');
            out.push('u');
            out.push('0');
            out.push('0');
            out.push(hex_digit_exec((c as u32) / 16));
            out.push(hex_digit_exec((c as u32) % 16));
        } else {
            out.push(c);
        }
        proof {
            assert(cs@.take(i + 1).drop_last() =~= cs@.take(i as int));
            assert(cs@.take(i + 1).last() == cs@[i as int]);
            assert(out@ =~= old(out)@ + seq!['"'] + (json_escaped(cs@.take(i as int))
                + json_escape_char(cs@[i as int])));
            assert(out@ =~= old(out)@ + seq!['"'] + json_escaped(cs@.take(i + 1)));
        }
        i = i + 1;
    }
    out.push('"');
    proof {
        assert(cs@.take(cs@.len() as int) =~= cs@);
        assert(out@ =~= old(out)@ + json_quoted(s@));
    }
}

} // verus!
