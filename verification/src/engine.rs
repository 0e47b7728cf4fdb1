//! The synchronization engine.  Every operation is a decision procedure
//! over values the embedding program gathered: file contents, modification
//! times and a clock reading come in; what to write, where to back up and
//! how the index changes come out.  The embedding program performs the
//! reads and writes around each call and nothing else.
use vstd::prelude::*;
use crate::backup;
use crate::backup::{backup_name, TIMESTAMP_LIMIT};
use crate::config::Config;
use crate::database::{Database, Entry, EntryView, entries_map};
use crate::errors::SyncError;
use crate::jsondoc::{JsonDoc, doc_text, json_is_valid, merge_pairs, parsed_object};
use crate::paths::{
    canonicalize, is_normal_absolute, to_dotfile, to_dotfile_exec, to_template, to_template_exec,
    is_template_candidate, is_candidate_exec,
};
use crate::render::{render_template, rendered};
use crate::sanitize::{sanitize_file, sanitize_text};
use crate::text::{str_chars, chars_string, append_str};

verus! {

/// The engine: the three roots and the index of managed files.
pub struct App {
    pub cfg: Config,
    pub db: Database,
}

/// The conflict rule: a destination with modification time `mtime` may
/// not be rendered when the index has no baseline for it, or its baseline
/// is strictly older than `mtime`.
pub open spec fn is_conflict(db: Map<Seq<char>, EntryView>, dest: Seq<char>, mtime: u64) -> bool {
    !db.contains_key(dest) || mtime > db[dest].last_updated
}

/// Both configuration documents parsed as JSON objects.
pub open spec fn config_ok(global_text: Seq<char>, local_text: Option<Seq<char>>) -> bool {
    &&& json_is_valid(global_text)
    &&& parsed_object(global_text) is Some
    &&& match local_text {
        Some(lt) => json_is_valid(lt) && parsed_object(lt) is Some,
        None => true,
    }
}

/// The merged member sequence the renderer sees: the global document
/// overlaid by the local one when a local one is present.
pub open spec fn merged_doc(global_text: Seq<char>, local_text: Option<Seq<char>>) -> Seq<
    (Seq<char>, Seq<char>),
> {
    match local_text {
        Some(lt) => merge_pairs(parsed_object(global_text)->Some_0, parsed_object(lt)->Some_0),
        None => parsed_object(global_text)->Some_0,
    }
}

/// The character-level image of an optional text.
pub open spec fn opt_view(t: Option<&str>) -> Option<Seq<char>> {
    match t {
        Some(s) => Some(s@),
        None => None,
    }
}

/// What a successful render asks the embedding program to do.
pub struct RenderPlan {
    /// Whether the destination already exists, and so must be backed up
    /// before the write.
    pub backup_needed: bool,
    /// The rendered text to write to the destination.
    pub output: String,
}

/// Adding a file and immediately rendering it cannot raise a false
/// conflict: once the index records the live file's own modification time
/// as the baseline, a destination unchanged since then never conflicts.
pub proof fn lemma_add_then_render_no_conflict(
    db: Map<Seq<char>, EntryView>,
    dest: Seq<char>,
    e: EntryView,
    m: u64,
)
    requires
        e.last_updated == m,
    ensures
        !is_conflict(db.insert(dest, e), dest, m),
{
}

/// The baseline a successful render leaves behind: the index records the
/// touch time, so whenever the embedding program touches with a clock
/// reading taken at or after the write, the record is not older than the
/// written file.
pub proof fn lemma_render_baseline(
    db: Map<Seq<char>, EntryView>,
    dest: Seq<char>,
    now: u64,
    write_mtime: u64,
)
    requires
        db.contains_key(dest),
        now >= write_mtime,
    ensures
        db.insert(dest, EntryView { last_updated: now, ..db[dest] })[dest].last_updated
            >= write_mtime,
{
}

impl App {
    /// Validity of the engine state.
    pub open spec fn wf(&self) -> bool {
        self.db.wf()
    }

    /// The engine over a configuration and the entries read from the
    /// index backing file.
    pub fn from_config(cfg: Config, entries: Vec<Entry>) -> (r: App)
        ensures
            r.wf(),
            r.cfg == cfg,
            r.db@ == entries_map(entries@),
    {
        App { cfg, db: Database::from_entries(entries) }
    }

    /// The live dotfile location of a template-tree path.  The path is
    /// brought to normal form first; for a path already in normal form
    /// the result is exactly the mapping, and the only failure is a path
    /// outside the template root.
    pub fn filename_to_dotfile(&self, path: &str) -> (r: Result<String, SyncError>)
        ensures
            is_normal_absolute(path@) ==> match r {
                Ok(s) => to_dotfile(self.cfg.home_path@, self.cfg.dot_path@, path@) == Some(s@),
                Err(e) => to_dotfile(self.cfg.home_path@, self.cfg.dot_path@, path@) is None && (
                e matches SyncError::NotADotfile { path: p, home: h } && p@ == path@ && h@
                    == self.cfg.home_path@),
            },
    {
        let canon = match canonicalize(path) {
            Ok(c) => c,
            Err(e) => {
                return Err(e);
            },
        };
        let home = str_chars(self.cfg.home_path.as_str());
        let dot = str_chars(self.cfg.dot_path.as_str());
        let pc = str_chars(canon.as_str());
        match to_dotfile_exec(&home, &dot, &pc) {
            Some(v) => Ok(chars_string(&v)),
            None => Err(
                SyncError::NotADotfile { path: canon, home: self.cfg.home_path.clone() },
            ),
        }
    }

    /// The template-tree location of a live dotfile path.  The path is
    /// brought to normal form first; for a path already in normal form
    /// the result is exactly the mapping, and the only failure is a path
    /// outside the home root or without the leading dot.
    pub fn dotfile_to_filename(&self, path: &str) -> (r: Result<String, SyncError>)
        ensures
            is_normal_absolute(path@) ==> match r {
                Ok(s) => to_template(self.cfg.home_path@, self.cfg.dot_path@, path@) == Some(s@),
                Err(e) => to_template(self.cfg.home_path@, self.cfg.dot_path@, path@) is None && (
                e matches SyncError::NotADotfile { path: p, home: h } && p@ == path@ && h@
                    == self.cfg.home_path@),
            },
    {
        let canon = match canonicalize(path) {
            Ok(c) => c,
            Err(e) => {
                return Err(e);
            },
        };
        let home = str_chars(self.cfg.home_path.as_str());
        let dot = str_chars(self.cfg.dot_path.as_str());
        let pc = str_chars(canon.as_str());
        match to_template_exec(&home, &dot, &pc) {
            Some(v) => Ok(chars_string(&v)),
            None => Err(
                SyncError::NotADotfile { path: canon, home: self.cfg.home_path.clone() },
            ),
        }
    }

    /// The conflict check.  `file_mtime` is the live file's current
    /// modification time; succeeds exactly when the index has a baseline
    /// for `dpath` that is not older than it.
    pub fn ensure_template_newer_than_file(&self, dpath: &String, file_mtime: u64) -> (r: Result<
        (),
        SyncError,
    >)
        requires
            self.wf(),
        ensures
            match r {
                Ok(_) => self.db@.contains_key(dpath@) && file_mtime
                    <= self.db@[dpath@].last_updated,
                Err(e) => match e {
                    SyncError::UnknownEntry { path } => path@ == dpath@
                        && !self.db@.contains_key(dpath@),
                    SyncError::FileNewerThanTemplate { path } => path@ == dpath@
                        && self.db@.contains_key(dpath@) && file_mtime
                        > self.db@[dpath@].last_updated,
                    _ => false,
                },
            },
    {
        match self.db.last_updated(dpath) {
            None => Err(SyncError::UnknownEntry { path: dpath.clone() }),
            Some(baseline) => {
                if file_mtime > baseline {
                    Err(SyncError::FileNewerThanTemplate { path: dpath.clone() })
                } else {
                    Ok(())
                }
            },
        }
    }

    /// The data context for a render: the global document, overlaid by
    /// the local one when the template has one.  Either document that is
    /// malformed JSON is `JsonConfig`; valid JSON that is not an object
    /// is `NotAnObject`.
    pub fn get_template_config_data(&self, global_text: &str, local_text: Option<&str>) -> (r:
        Result<JsonDoc, SyncError>)
        ensures
            match r {
                Ok(d) => config_ok(global_text@, opt_view(local_text)) && d.wf() && d.pairs_seq()
                    == merged_doc(global_text@, opt_view(local_text)),
                Err(e) => match e {
                    SyncError::JsonConfig { .. } => !json_is_valid(global_text@) || (parsed_object(
                        global_text@,
                    ) is Some && (local_text matches Some(lt) && !json_is_valid(lt@))),
                    SyncError::NotAnObject => (json_is_valid(global_text@) && parsed_object(
                        global_text@,
                    ) is None) || (parsed_object(global_text@) is Some && (
                    local_text matches Some(lt) && json_is_valid(lt@) && parsed_object(lt@)
                        is None)),
                    _ => false,
                },
            },
    {
        let global_doc = match JsonDoc::parse(global_text, "global config document") {
            Ok(d) => d,
            Err(e) => {
                return Err(e);
            },
        };
        match local_text {
            None => Ok(global_doc),
            Some(lt) => {
                let local_doc = match JsonDoc::parse(lt, "local config document") {
                    Ok(d) => d,
                    Err(e) => {
                        return Err(e);
                    },
                };
                Ok(global_doc.merge(&local_doc))
            },
        }
    }

    /// One render, decided.  The embedding program hands in the state of
    /// the world: the destination's modification time (`None` when the
    /// file does not exist), the template's text, the two configuration
    /// texts, and a clock reading in nanoseconds for a first-time entry.
    ///
    /// The safety rule stands in the contract: when the destination
    /// conflicts — it exists with no baseline, or was modified after its
    /// baseline — the result is `FileNewerThanTemplate`, no plan is
    /// handed out, and the index is untouched, so nothing is overwritten.
    pub fn process_file(
        &mut self,
        template_path: &str,
        result_path: &str,
        dest_mtime: Option<u64>,
        template_text: &str,
        global_text: &str,
        local_text: Option<&str>,
        now: u64,
    ) -> (r: Result<RenderPlan, SyncError>)
        requires
            old(self).wf(),
        ensures
            final(self).wf(),
            final(self).cfg == old(self).cfg,
            final(self).db@ == (match dest_mtime {
                None => old(self).db@.insert(
                    result_path@,
                    EntryView {
                        template_path: template_path@,
                        config_path: None,
                        destination: result_path@,
                        last_updated: now,
                    },
                ),
                Some(_) => old(self).db@,
            }),
            (dest_mtime matches Some(m) && is_conflict(old(self).db@, result_path@, m)) ==> (
            r matches Err(e) && e matches SyncError::FileNewerThanTemplate { path } && path@
                == result_path@),
            !(dest_mtime matches Some(m) && is_conflict(old(self).db@, result_path@, m))
                ==> match r {
                Ok(plan) => config_ok(global_text@, opt_view(local_text)) && rendered(
                    template_text@,
                    doc_text(merged_doc(global_text@, opt_view(local_text))),
                ) == Some(plan.output@) && plan.backup_needed == (dest_mtime is Some),
                Err(e) => match e {
                    SyncError::JsonConfig { .. } => !json_is_valid(global_text@) || (parsed_object(
                        global_text@,
                    ) is Some && (local_text matches Some(lt) && !json_is_valid(lt@))),
                    SyncError::NotAnObject => (json_is_valid(global_text@) && parsed_object(
                        global_text@,
                    ) is None) || (parsed_object(global_text@) is Some && (
                    local_text matches Some(lt) && json_is_valid(lt@) && parsed_object(lt@)
                        is None)),
                    SyncError::RenderError { .. } => config_ok(global_text@, opt_view(local_text))
                        && (!json_is_valid(doc_text(merged_doc(global_text@, opt_view(local_text))))
                        || rendered(
                        template_text@,
                        doc_text(merged_doc(global_text@, opt_view(local_text))),
                    ) is None),
                    _ => false,
                },
            },
    {
        match dest_mtime {
            Some(m) => {
                let dest_key = result_path.to_owned();
                match self.db.last_updated(&dest_key) {
                    None => {
                        return Err(SyncError::FileNewerThanTemplate { path: dest_key });
                    },
                    Some(baseline) => {
                        if m > baseline {
                            return Err(SyncError::FileNewerThanTemplate { path: dest_key });
                        }
                    },
                }
            },
            None => {
                let entry = Entry {
                    template_path: template_path.to_owned(),
                    config_path: None,
                    destination: result_path.to_owned(),
                    last_updated: now,
                };
                let _ = self.db.add_entry(entry);
            },
        }
        let data = match self.get_template_config_data(global_text, local_text) {
            Ok(d) => d,
            Err(e) => {
                return Err(e);
            },
        };
        let output = match render_template(template_text, &data) {
            Ok(s) => s,
            Err(e) => {
                return Err(e);
            },
        };
        Ok(
            RenderPlan {
                backup_needed: match dest_mtime {
                    Some(_) => true,
                    None => false,
                },
                output,
            },
        )
    }

    /// Brings a live file under management, decided.  The embedding
    /// program hands in the file's content and modification time and, for
    /// a generated local config, the hostname; it gets back where the
    /// sanitized copy and the optional local config document go.  The new
    /// entry's baseline is the live file's own modification time, so an
    /// immediately following render does not conflict.
    pub fn add_file(
        &mut self,
        path: &str,
        content: &str,
        file_mtime: u64,
        generate_config: bool,
        hostname: &String,
    ) -> (r: Result<AddPlan, SyncError>)
        requires
            old(self).wf(),
        ensures
            final(self).wf(),
            final(self).cfg == old(self).cfg,
            r is Err ==> final(self).db@ == old(self).db@,
            match r {
                Ok(plan) => {
                    &&& plan.template_text@ == sanitize_text(content@)
                    &&& (match plan.config {
                        Some((cp, cc)) => generate_config && cp@ == plan.template_path@ + seq![
                            '.',
                            'j',
                            's',
                            'o',
                            'n',
                        ] && cc@ == doc_text(seq![(hostname@, "true"@)]),
                        None => !generate_config,
                    })
                    &&& final(self).db@ == old(self).db@.insert(
                        path@,
                        EntryView {
                            template_path: plan.template_path@,
                            config_path: (match plan.config {
                                Some((cp, _)) => Some(cp@),
                                None => None,
                            }),
                            destination: path@,
                            last_updated: file_mtime,
                        },
                    )
                },
                Err(_) => true,
            },
            is_normal_absolute(path@) ==> match r {
                Ok(plan) => to_template(old(self).cfg.home_path@, old(self).cfg.dot_path@, path@)
                    == Some(plan.template_path@),
                Err(e) => to_template(old(self).cfg.home_path@, old(self).cfg.dot_path@, path@)
                    is None && (e matches SyncError::NotADotfile { .. }),
            },
    {
        let template_path = match self.dotfile_to_filename(path) {
            Ok(t) => t,
            Err(e) => {
                return Err(e);
            },
        };
        let template_text = sanitize_file(content);
        let config: Option<(String, String)> = if generate_config {
            let mut name: Vec<char> = Vec::new();
            append_str(&mut name, template_path.as_str());
            name.push('.');
            name.push('j');
            name.push('s');
            name.push('o');
            name.push('n');
            proof {
                assert(name@ =~= template_path@ + seq!['.', 'j', 's', 'o', 'n']);
            }
            let config_path = chars_string(&name);
            let value_text = "true".to_owned();
            let doc = JsonDoc::singleton(hostname, &value_text);
            proof {
                assert(doc.pairs_seq() =~= seq![(hostname@, "true"@)]);
            }
            let config_text = doc.to_json_text();
            Some((config_path, config_text))
        } else {
            None
        };
        let entry = Entry {
            template_path: template_path.clone(),
            config_path: match &config {
                Some((cp, _)) => Some(cp.clone()),
                None => None,
            },
            destination: path.to_owned(),
            last_updated: file_mtime,
        };
        let _ = self.db.add_entry(entry);
        Ok(AddPlan { template_path, template_text, config })
    }

    /// The template-tree files the enumeration hands out, among
    /// `all_files`: those under the template root with no hidden segment
    /// and no local-config suffix, in their given order.
    pub fn files_to_process(&self, all_files: &Vec<String>) -> (r: Vec<String>)
        ensures
            r@ == candidates(self.cfg.dot_path@, all_files@),
    {
        let dot = str_chars(self.cfg.dot_path.as_str());
        let mut out: Vec<String> = Vec::new();
        let mut i: usize = 0;
        proof {
            assert(out@ =~= candidates(self.cfg.dot_path@, all_files@.take(0)));
        }
        while i < all_files.len()
            invariant
                i <= all_files@.len(),
                dot@ == self.cfg.dot_path@,
                out@ == candidates(self.cfg.dot_path@, all_files@.take(i as int)),
            decreases all_files@.len() - i,
        {
            let pc = str_chars(all_files[i].as_str());
            proof {
                assert(all_files@.take(i + 1).drop_last() =~= all_files@.take(i as int));
                assert(all_files@.take(i + 1).last() == all_files@[i as int]);
            }
            if is_candidate_exec(&dot, &pc) {
                out.push(all_files[i].clone());
                proof {
                    assert(out@ =~= candidates(self.cfg.dot_path@, all_files@.take(i as int)).push(
                        all_files@[i as int],
                    ));
                    assert(candidates(self.cfg.dot_path@, all_files@.take(i + 1)) =~= candidates(
                        self.cfg.dot_path@,
                        all_files@.take(i as int),
                    ).push(all_files@[i as int]));
                }
            } else {
                proof {
                    assert(candidates(self.cfg.dot_path@, all_files@.take(i + 1)) =~= candidates(
                        self.cfg.dot_path@,
                        all_files@.take(i as int),
                    ));
                }
            }
            i = i + 1;
        }
        proof {
            assert(all_files@.take(all_files@.len() as int) =~= all_files@);
        }
        out
    }

    /// The backup location for `path` at second `now_secs`, under the
    /// backup root.
    pub fn backup_file(&self, path: &str, now_secs: u64) -> (r: Result<String, SyncError>)
        requires
            now_secs < TIMESTAMP_LIMIT,
        ensures
            match r {
                Ok(s) => backup_name(self.cfg.backup_path@, path@, now_secs) == Some(s@),
                Err(e) => e matches SyncError::NoFileName && backup_name(
                    self.cfg.backup_path@,
                    path@,
                    now_secs,
                ) is None,
            },
    {
        backup::backup_file(self.cfg.backup_path.as_str(), path, now_secs)
    }
}

/// What `add_file` asks the embedding program to write.
pub struct AddPlan {
    /// Where the sanitized copy of the live file goes, in the template
    /// tree.
    pub template_path: String,
    /// The sanitized content to write there.
    pub template_text: String,
    /// The local config document to create beside it, when one was
    /// requested: its path and its content.
    pub config: Option<(String, String)>,
}


/// The decision of the consent prompt, over the line as it was read,
/// trailing newline included: a bare newline consents, a one-letter
/// `y`/`n` answer decides, anything else asks again (`None`).
pub fn prompt_answer(line: &str) -> (r: Option<bool>)
    ensures
        r == (if line@.len() == 1 {
            Some(true)
        } else if line@.len() == 2 && (line@[0] == 'y' || line@[0] == 'Y') {
            Some(true)
        } else if line@.len() == 2 && (line@[0] == 'n' || line@[0] == 'N') {
            Some(false)
        } else {
            None::<bool>
        }),
{
    let cs = str_chars(line);
    if cs.len() == 1 {
        Some(true)
    } else if cs.len() == 2 && (cs[0] == 'y' || cs[0] == 'Y') {
        Some(true)
    } else if cs.len() == 2 && (cs[0] == 'n' || cs[0] == 'N') {
        Some(false)
    } else {
        None
    }
}

/// Of `files`, those that are template candidates under `dot`, in order.
pub open spec fn candidates(dot: Seq<char>, files: Seq<String>) -> Seq<String>
    decreases files.len(),
{
    if files.len() == 0 {
        Seq::empty()
    } else {
        candidates(dot, files.drop_last()) + (if is_template_candidate(dot, files.last()@) {
            seq![files.last()]
        } else {
            Seq::empty()
        })
    }
}

} // verus!
