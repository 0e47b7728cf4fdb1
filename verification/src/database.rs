//! The index ("database"): the in-memory record of every managed file,
//! keyed by its live destination path.  Loading the backing file and
//! writing it back are the embedding program's business; everything the
//! record means is here.
use vstd::prelude::*;
use crate::errors::SyncError;
use crate::jsondoc::{append_quoted, json_quoted};
use crate::text::{append_str, chars_string, dec_str, u64_to_dec, append_chars};

verus! {

/// One managed file: where its template lives, where its optional local
/// configuration document lives, where the rendered file lives, and when it
/// was last successfully synchronized (nanoseconds since the epoch).
#[derive(Debug)]
pub struct Entry {
    pub template_path: String,
    pub config_path: Option<String>,
    pub destination: String,
    pub last_updated: u64,
}

/// The mathematical image of an `Entry`.
pub struct EntryView {
    pub template_path: Seq<char>,
    pub config_path: Option<Seq<char>>,
    pub destination: Seq<char>,
    pub last_updated: u64,
}

impl View for Entry {
    type V = EntryView;

    open spec fn view(&self) -> EntryView {
        EntryView {
            template_path: self.template_path@,
            config_path: match self.config_path {
                Some(p) => Some(p@),
                None => None,
            },
            destination: self.destination@,
            last_updated: self.last_updated,
        }
    }
}

impl Entry {
    /// A field-for-field copy.
    pub fn duplicate(&self) -> (r: Entry)
        ensures
            r@ == self@,
    {
        Entry {
            template_path: self.template_path.clone(),
            config_path: match &self.config_path {
                Some(p) => Some(p.clone()),
                None => None,
            },
            destination: self.destination.clone(),
            last_updated: self.last_updated,
        }
    }
}

/// The mapping a sequence of entries stands for: keyed by destination,
/// later entries winning over earlier ones.
pub open spec fn entries_map(s: Seq<Entry>) -> Map<Seq<char>, EntryView>
    decreases s.len(),
{
    if s.len() == 0 {
        Map::empty()
    } else {
        entries_map(s.drop_last()).insert(s.last().destination@, s.last()@)
    }
}

/// No two entries share a destination.
pub open spec fn distinct_destinations(s: Seq<Entry>) -> bool {
    forall|i: int, j: int|
        0 <= i < j < s.len() ==> s[i].destination@ != s[j].destination@
}

/// The index of managed files.  Viewed as a map from destination path to
/// entry; internally a vector with pairwise distinct destinations.
pub struct Database {
    entries: Vec<Entry>,
}

proof fn lemma_entries_map_dom(s: Seq<Entry>, k: Seq<char>)
    ensures
        entries_map(s).contains_key(k) <==> exists|i: int|
            0 <= i < s.len() && s[i].destination@ == k,
    decreases s.len(),
{
    if s.len() > 0 {
        lemma_entries_map_dom(s.drop_last(), k);
        if s.last().destination@ == k {
            assert(s[s.len() - 1].destination@ == k);
        } else {
            if entries_map(s).contains_key(k) {
                let i = choose|i: int| 0 <= i < s.len() - 1 && s.drop_last()[i].destination@ == k;
                assert(s[i].destination@ == k);
            }
            if exists|i: int| 0 <= i < s.len() && s[i].destination@ == k {
                let i = choose|i: int| 0 <= i < s.len() && s[i].destination@ == k;
                assert(i < s.len() - 1);
                assert(s.drop_last()[i].destination@ == k);
            }
        }
    }
}

proof fn lemma_entries_map_at(s: Seq<Entry>, i: int)
    requires
        distinct_destinations(s),
        0 <= i < s.len(),
    ensures
        entries_map(s).contains_key(s[i].destination@),
        entries_map(s)[s[i].destination@] == s[i]@,
    decreases s.len(),
{
    if i == s.len() - 1 {
    } else {
        assert(distinct_destinations(s.drop_last())) by {
            assert(forall|x: int, y: int|
                0 <= x < y < s.len() - 1 ==> s.drop_last()[x] == s[x] && s.drop_last()[y] == s[y]);
        }
        lemma_entries_map_at(s.drop_last(), i);
        assert(s.drop_last()[i] == s[i]);
        assert(s[i].destination@ != s.last().destination@);
    }
}

proof fn lemma_entries_map_push(s: Seq<Entry>, e: Entry)
    ensures
        entries_map(s.push(e)) == entries_map(s).insert(e.destination@, e@),
{
    assert(s.push(e).drop_last() =~= s);
    assert(s.push(e).last() == e);
}

proof fn lemma_entries_map_remove(s: Seq<Entry>, i: int)
    requires
        distinct_destinations(s),
        0 <= i < s.len(),
    ensures
        entries_map(s.remove(i)) == entries_map(s).remove(s[i].destination@),
    decreases s.len(),
{
    let k = s[i].destination@;
    if i == s.len() - 1 {
        assert(s.remove(i) =~= s.drop_last());
        lemma_entries_map_dom(s.drop_last(), k);
        assert(forall|j: int|
            0 <= j < s.len() - 1 ==> s.drop_last()[j] == s[j] && s[j].destination@ != k);
        assert(!entries_map(s.drop_last()).contains_key(k));
        assert(entries_map(s.drop_last()).insert(k, s.last()@).remove(k) =~= entries_map(
            s.drop_last(),
        ));
    } else {
        let dl = s.drop_last();
        let last = s.last();
        assert(distinct_destinations(dl)) by {
            assert(forall|x: int, y: int|
                0 <= x < y < s.len() - 1 ==> dl[x] == s[x] && dl[y] == s[y]);
        }
        assert(s.remove(i).drop_last() =~= dl.remove(i));
        assert(s.remove(i).last() == last);
        assert(s.remove(i).len() == s.len() - 1);
        lemma_entries_map_remove(dl, i);
        assert(dl[i] == s[i]);
        assert(k != last.destination@);
        assert(entries_map(s.remove(i)) == entries_map(dl.remove(i)).insert(
            last.destination@,
            last@,
        ));
        assert(entries_map(dl).remove(k).insert(last.destination@, last@) =~= entries_map(
            dl,
        ).insert(last.destination@, last@).remove(k));
    }
}

impl View for Database {
    type V = Map<Seq<char>, EntryView>;

    open spec fn view(&self) -> Map<Seq<char>, EntryView> {
        entries_map(self.entry_seq())
    }
}

impl Database {
    /// The entries in their storage order (the order `log_contents` and the
    /// serialized form follow).
    pub closed spec fn entry_seq(&self) -> Seq<Entry> {
        self.entries@
    }

    /// Validity: no two entries share a destination.  Established by the
    /// constructors and preserved by every mutation.
    pub closed spec fn wf(&self) -> bool {
        distinct_destinations(self.entries@)
    }

    /// An index with no entries.
    pub fn new() -> (r: Database)
        ensures
            r.wf(),
            r@ == Map::<Seq<char>, EntryView>::empty(),
            r.entry_seq().len() == 0,
    {
        Database { entries: Vec::new() }
    }

    /// The index holding the given entries, inserted in order (on a repeated
    /// destination the later entry wins, as a JSON object's repeated key
    /// would).
    pub fn from_entries(entries: Vec<Entry>) -> (r: Database)
        ensures
            r.wf(),
            r@ == entries_map(entries@),
    {
        let mut db = Database::new();
        let mut i: usize = 0;
        let n = entries.len();
        let mut rest = entries;
        proof {
            assert(entries_map(rest@.take(0)) =~= Map::<Seq<char>, EntryView>::empty());
        }
        while i < n
            invariant
                i <= n,
                n == rest@.len(),
                db.wf(),
                db@ == entries_map(rest@.take(i as int)),
            decreases n - i,
        {
            let e = rest[i].duplicate();
            assert(e@ == rest@[i as int]@);
            db.add_entry(e);
            proof {
                assert(rest@.take(i + 1).drop_last() =~= rest@.take(i as int));
                assert(rest@.take(i + 1).last() == rest@[i as int]);
            }
            i = i + 1;
        }
        assert(rest@.take(n as int) =~= rest@);
        db
    }

    /// The position of the entry for `path`, if any.
    fn find_index(&self, path: &String) -> (r: Option<usize>)
        ensures
            match r {
                Some(i) => i < self.entry_seq().len() && self.entry_seq()[i as int].destination@
                    == path@,
                None => forall|j: int|
                    0 <= j < self.entry_seq().len() ==> self.entry_seq()[j].destination@ != path@,
            },
    {
        let mut i: usize = 0;
        while i < self.entries.len()
            invariant
                i <= self.entries@.len(),
                forall|j: int| 0 <= j < i ==> self.entries@[j].destination@ != path@,
            decreases self.entries@.len() - i,
        {
            if self.entries[i].destination == *path {
                return Some(i);
            }
            i = i + 1;
        }
        None
    }

    /// Records `e` under its destination, returning the entry it replaced,
    /// if any.
    pub fn add_entry(&mut self, e: Entry) -> (r: Option<Entry>)
        requires
            old(self).wf(),
        ensures
            final(self).wf(),
            final(self)@ == old(self)@.insert(e.destination@, e@),
            r is Some <==> old(self)@.contains_key(e.destination@),
            r matches Some(prev) ==> prev@ == old(self)@[e.destination@],
    {
        let found = self.find_index(&e.destination);
        proof {
            lemma_entries_map_dom(self.entries@, e.destination@);
        }
        match found {
            Some(i) => {
                proof {
                    lemma_entries_map_at(self.entries@, i as int);
                    lemma_entries_map_remove(self.entries@, i as int);
                }
                let prev = self.entries.remove(i);
                proof {
                    assert(distinct_destinations(self.entries@)) by {
                        assert(forall|x: int, y: int|
                            0 <= x < y < self.entries@.len() ==> old(
                                self,
                            ).entries@.remove(i as int)[x] == self.entries@[x] && old(
                                self,
                            ).entries@.remove(i as int)[y] == self.entries@[y]);
                    }
                    lemma_entries_map_dom(self.entries@, e.destination@);
                    lemma_entries_map_push(self.entries@, e);
                }
                let ghost pre_push = self.entries@;
                self.entries.push(e);
                proof {
                    assert(forall|j: int|
                        0 <= j < pre_push.len() ==> pre_push[j].destination@ != e.destination@);
                    assert(distinct_destinations(self.entries@));
                    assert(final(self)@ =~= old(self)@.insert(e.destination@, e@));
                }
                Some(prev)
            },
            None => {
                proof {
                    lemma_entries_map_push(self.entries@, e);
                }
                let ghost pre_push = self.entries@;
                self.entries.push(e);
                proof {
                    assert(forall|j: int|
                        0 <= j < pre_push.len() ==> pre_push[j].destination@ != e.destination@);
                    assert(distinct_destinations(self.entries@));
                }
                None
            },
        }
    }

    /// Sets the entry's `last_updated` to `now`; fails with `UnknownEntry`
    /// when no entry exists for `path`.
    pub fn touch(&mut self, path: &String, now: u64) -> (r: Result<(), SyncError>)
        requires
            old(self).wf(),
        ensures
            final(self).wf(),
            old(self)@.contains_key(path@) ==> r is Ok && final(self)@ == old(self)@.insert(
                path@,
                EntryView { last_updated: now, ..old(self)@[path@] },
            ),
            !old(self)@.contains_key(path@) ==> final(self)@ == old(self)@ && (r matches Err(e)
                && e matches SyncError::UnknownEntry { path: p } && p@ == path@),
    {
        let found = self.find_index(path);
        proof {
            lemma_entries_map_dom(self.entries@, path@);
        }
        match found {
            Some(i) => {
                proof {
                    lemma_entries_map_at(self.entries@, i as int);
                    lemma_entries_map_remove(self.entries@, i as int);
                }
                let mut ent = self.entries.remove(i);
                proof {
                    assert(distinct_destinations(self.entries@)) by {
                        assert(forall|x: int, y: int|
                            0 <= x < y < self.entries@.len() ==> old(
                                self,
                            ).entries@.remove(i as int)[x] == self.entries@[x] && old(
                                self,
                            ).entries@.remove(i as int)[y] == self.entries@[y]);
                    }
                    lemma_entries_map_dom(self.entries@, path@);
                }
                ent.last_updated = now;
                proof {
                    lemma_entries_map_push(self.entries@, ent);
                }
                let ghost pre_push = self.entries@;
                self.entries.push(ent);
                proof {
                    assert(forall|j: int|
                        0 <= j < pre_push.len() ==> pre_push[j].destination@ != path@);
                    assert(distinct_destinations(self.entries@));
                    assert(final(self)@ =~= old(self)@.insert(
                        path@,
                        EntryView { last_updated: now, ..old(self)@[path@] },
                    ));
                }
                Ok(())
            },
            None => Err(SyncError::UnknownEntry { path: path.clone() }),
        }
    }

    /// Drops the entry for `path`, if any.
    pub fn rm_key(&mut self, path: &String)
        requires
            old(self).wf(),
        ensures
            final(self).wf(),
            final(self)@ == old(self)@.remove(path@),
    {
        let found = self.find_index(path);
        proof {
            lemma_entries_map_dom(self.entries@, path@);
        }
        match found {
            Some(i) => {
                proof {
                    lemma_entries_map_remove(self.entries@, i as int);
                }
                let _ = self.entries.remove(i);
                proof {
                    assert(distinct_destinations(self.entries@)) by {
                        assert(forall|x: int, y: int|
                            0 <= x < y < self.entries@.len() ==> old(
                                self,
                            ).entries@.remove(i as int)[x] == self.entries@[x] && old(
                                self,
                            ).entries@.remove(i as int)[y] == self.entries@[y]);
                    }
                }
            },
            None => {
                proof {
                    assert(!old(self)@.contains_key(path@));
                    assert(final(self)@ =~= old(self)@.remove(path@));
                }
            },
        }
    }

    /// Drops the entry stored under `e`'s destination, if any.
    pub fn rm_entry(&mut self, e: Entry)
        requires
            old(self).wf(),
        ensures
            final(self).wf(),
            final(self)@ == old(self)@.remove(e.destination@),
    {
        self.rm_key(&e.destination);
    }

    /// The entry recorded for `path`, if any.
    pub fn lookup(&self, path: &String) -> (r: Option<&Entry>)
        requires
            self.wf(),
        ensures
            match r {
                Some(e) => self@.contains_key(path@) && e@ == self@[path@],
                None => !self@.contains_key(path@),
            },
    {
        let found = self.find_index(path);
        proof {
            lemma_entries_map_dom(self.entries@, path@);
        }
        match found {
            Some(i) => {
                proof {
                    lemma_entries_map_at(self.entries@, i as int);
                }
                Some(&self.entries[i])
            },
            None => None,
        }
    }

    /// The recorded last-synchronization time for `path`.
    pub fn last_updated(&self, path: &String) -> (r: Option<u64>)
        requires
            self.wf(),
        ensures
            r == if self@.contains_key(path@) {
                Some(self@[path@].last_updated)
            } else {
                None::<u64>
            },
    {
        let found = self.find_index(path);
        proof {
            lemma_entries_map_dom(self.entries@, path@);
        }
        match found {
            Some(i) => {
                proof {
                    lemma_entries_map_at(self.entries@, i as int);
                }
                Some(self.entries[i].last_updated)
            },
            None => None,
        }
    }

    /// The recorded last-synchronization time for `e`'s destination.
    pub fn last_updated_entry(&self, e: Entry) -> (r: Option<u64>)
        requires
            self.wf(),
        ensures
            r == if self@.contains_key(e.destination@) {
                Some(self@[e.destination@].last_updated)
            } else {
                None::<u64>
            },
    {
        self.last_updated(&e.destination)
    }

    /// Whether `path` is managed.
    pub fn in_database(&self, path: &String) -> (r: bool)
        ensures
            r == self@.contains_key(path@),
    {
        let found = self.find_index(path);
        proof {
            lemma_entries_map_dom(self.entries@, path@);
        }
        match found {
            Some(_) => true,
            None => false,
        }
    }

    /// A borrow of the entries in storage order, for the embedding program
    /// to serialize.
    pub fn entries(&self) -> (r: &Vec<Entry>)
        ensures
            r@ == self.entry_seq(),
    {
        &self.entries
    }


    /// The index document, serialized in full: what a commit writes over
    /// the backing file.
    pub fn to_json(&self) -> (r: String)
        ensures
            r@ == db_json(self.entry_seq()),
    {
        let mut out: Vec<char> = Vec::new();
        out.push('{');
        proof {
            assert(db_body(self.entries@.take(0)) =~= Seq::<char>::empty());
            assert(out@ =~= seq!['{'] + db_body(self.entries@.take(0)));
        }
        let mut i: usize = 0;
        while i < self.entries.len()
            invariant
                i <= self.entries@.len(),
                out@ == seq!['{'] + db_body(self.entries@.take(i as int)),
            decreases self.entries@.len() - i,
        {
            if i > 0 {
                out.push(',');
            }
            append_quoted(&mut out, &self.entries[i].destination);
            out.push(':');
            append_entry_json(&mut out, &self.entries[i]);
            proof {
                assert(self.entries@.take(i + 1).drop_last() =~= self.entries@.take(i as int));
                assert(self.entries@.take(i + 1).last() == self.entries@[i as int]);
                if i > 0 {
                    assert(out@ =~= seq!['{'] + (db_body(self.entries@.take(i as int)) + seq![',']
                        + db_member(self.entries@[i as int])));
                } else {
                    assert(out@ =~= seq!['{'] + (db_body(self.entries@.take(i as int)) + db_member(
                        self.entries@[i as int],
                    )));
                }
                assert(out@ =~= seq!['{'] + db_body(self.entries@.take(i + 1)));
            }
            i = i + 1;
        }
        out.push('}');
        proof {
            assert(self.entries@.take(self.entries@.len() as int) =~= self.entries@);
            assert(out@ =~= db_json(self.entry_seq()));
        }
        chars_string(&out)
    }
    /// One line per entry, in storage order: the destination, an arrow, and
    /// the recorded time.
    pub fn log_contents(&self) -> (r: String)
        ensures
            r@ == log_text(self.entry_seq()),
    {
        let mut out: Vec<char> = Vec::new();
        let mut i: usize = 0;
        while i < self.entries.len()
            invariant
                i <= self.entries@.len(),
                out@ == log_text(self.entries@.take(i as int)),
            decreases self.entries@.len() - i,
        {
            append_str(&mut out, self.entries[i].destination.as_str());
            append_str(&mut out, " -> ");
            let digits = u64_to_dec(self.entries[i].last_updated);
            append_chars(&mut out, &digits);
            append_str(&mut out, "\n");
            proof {
                assert(self.entries@.take(i + 1).drop_last() =~= self.entries@.take(i as int));
                assert(self.entries@.take(i + 1).last() == self.entries@[i as int]);
            }
            i = i + 1;
        }
        assert(self.entries@.take(self.entries@.len() as int) =~= self.entries@);
        chars_string(&out)
    }
}


/// The serialized form of one entry: its four fields as a JSON object,
/// the timestamp as a plain number of nanoseconds.
pub open spec fn entry_json(e: Entry) -> Seq<char> {
    seq!['{'] + json_quoted("template_path"@) + seq![':'] + json_quoted(e.template_path@)
        + seq![','] + json_quoted("config_path"@) + seq![':'] + (match e.config_path {
        Some(cp) => json_quoted(cp@),
        None => "null"@,
    }) + seq![','] + json_quoted("destination"@) + seq![':'] + json_quoted(e.destination@)
        + seq![','] + json_quoted("last_updated"@) + seq![':'] + dec_str(e.last_updated as nat)
        + seq!['}']
}

/// One index member: the destination as the key, the entry as the value.
pub open spec fn db_member(e: Entry) -> Seq<char> {
    json_quoted(e.destination@) + seq![':'] + entry_json(e)
}

/// The members of the index document, comma-separated, in storage order.
pub open spec fn db_body(s: Seq<Entry>) -> Seq<char>
    decreases s.len(),
{
    if s.len() == 0 {
        Seq::empty()
    } else {
        db_body(s.drop_last()) + (if s.len() > 1 {
            seq![',']
        } else {
            Seq::empty()
        }) + db_member(s.last())
    }
}

/// The whole index document.
pub open spec fn db_json(s: Seq<Entry>) -> Seq<char> {
    seq!['{'] + db_body(s) + seq!['}']
}

/// Appends the serialized form of one entry.
fn append_entry_json(out: &mut Vec<char>, e: &Entry)
    ensures
        final(out)@ == old(out)@ + entry_json(*e),
{
    out.push('{');
    append_quoted(out, &"template_path".to_owned());
    out.push(':');
    append_quoted(out, &e.template_path);
    out.push(',');
    append_quoted(out, &"config_path".to_owned());
    out.push(':');
    match &e.config_path {
        Some(cp) => {
            append_quoted(out, cp);
        },
        None => {
            append_str(out, "null");
        },
    }
    out.push(',');
    append_quoted(out, &"destination".to_owned());
    out.push(':');
    append_quoted(out, &e.destination);
    out.push(',');
    append_quoted(out, &"last_updated".to_owned());
    out.push(':');
    let digits = u64_to_dec(e.last_updated);
    append_chars(out, &digits);
    out.push('}');
    assert(final(out)@ =~= old(out)@ + entry_json(*e));
}

/// What `log_contents` prints for a sequence of entries.
pub open spec fn log_text(s: Seq<Entry>) -> Seq<char>
    decreases s.len(),
{
    if s.len() == 0 {
        Seq::empty()
    } else {
        log_text(s.drop_last()) + s.last().destination@ + " -> "@ + dec_str(
            s.last().last_updated as nat,
        ) + "\n"@
    }
}

} // verus!
