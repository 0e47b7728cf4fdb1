//! Backup naming.  Before a live file is overwritten its contents are
//! copied to the backup root under `{stem}{timestamp}.{ext}`, the
//! timestamp in a second-resolution sortable notation.  Two backups of
//! one stem within the same second share a name, and the later one wins;
//! callers needing more must add their own disambiguation.
use vstd::prelude::*;
use crate::errors::SyncError;
use crate::text::{str_chars, chars_string, append_chars, append_str};

verus! {

/// The UTC second `secs`, written `%Y-%m-%dT%H:%M:%S`.
pub uninterp spec fn timestamp_text(secs: u64) -> Seq<char>;

/// The first second of year 10000; timestamps stay below it so the year
/// is always four digits.
pub const TIMESTAMP_LIMIT: u64 = 253402300800;

/// Relies on chrono::DateTime::from_timestamp and chrono's `format`: the
/// `%Y-%m-%dT%H:%M:%S` notation of the given UTC second, a function of
/// the second alone; nineteen characters for every second this side of
/// year 10000.
#[verifier::external_body]
fn format_timestamp(secs: u64) -> (r: String)
    requires
        secs < TIMESTAMP_LIMIT,
    ensures
        r@ == timestamp_text(secs),
        r@.len() == 19,
{
    let stamp = chrono::DateTime::<chrono::Utc>::from_timestamp(secs as i64, 0)
        .expect("timestamp in range");
    stamp.format("%Y-%m-%dT%H:%M:%S").to_string()
}

/// Where the final name component of `p` starts: just after the last
/// separator, or at the start when `p` has none.
pub open spec fn file_name_start(p: Seq<char>) -> int
    decreases p.len(),
{
    if p.len() == 0 {
        0
    } else if p[p.len() - 1] == '/' {
        p.len() as int
    } else {
        file_name_start(p.drop_last())
    }
}

/// The final name component of `p`.
pub open spec fn file_name(p: Seq<char>) -> Seq<char> {
    p.skip(file_name_start(p))
}

/// The position of the last `.` of `n`, or `-1` when `n` has none.
pub open spec fn last_dot(n: Seq<char>) -> int
    decreases n.len(),
{
    if n.len() == 0 {
        -1
    } else if n[n.len() - 1] == '.' {
        n.len() - 1
    } else {
        last_dot(n.drop_last())
    }
}

/// The stem of the name `n`: what stands before the last dot, the whole
/// name when the only dot is the leading one or there is none.
pub open spec fn name_stem(n: Seq<char>) -> Seq<char> {
    if last_dot(n) > 0 {
        n.take(last_dot(n))
    } else {
        n
    }
}

/// The extension of the name `n`: what stands after the last dot, empty
/// when the only dot is the leading one or there is none.
pub open spec fn name_ext(n: Seq<char>) -> Seq<char> {
    if last_dot(n) > 0 {
        n.skip(last_dot(n) + 1)
    } else {
        Seq::empty()
    }
}

/// The backup location for `p` at second `secs`: under the backup root,
/// the stem, the timestamp, and the extension if there is one.  `None`
/// when `p` has no final name component.
pub open spec fn backup_name(backup_root: Seq<char>, p: Seq<char>, secs: u64) -> Option<Seq<char>> {
    let n = file_name(p);
    if n.len() == 0 {
        None
    } else {
        Some(
            backup_root + seq!['/'] + name_stem(n) + timestamp_text(secs) + (if last_dot(n) > 0 {
                seq!['.'] + name_ext(n)
            } else {
                Seq::empty()
            }),
        )
    }
}

proof fn lemma_file_name_start_at(p: Seq<char>, idx: int)
    requires
        0 <= idx <= p.len(),
        idx > 0 ==> p[idx - 1] == '/',
        forall|k: int| idx <= k < p.len() ==> p[k] != '/',
    ensures
        file_name_start(p) == idx,
    decreases p.len(),
{
    if p.len() == idx {
    } else {
        assert(p[p.len() - 1] != '/');
        lemma_file_name_start_at(p.drop_last(), idx);
    }
}

proof fn lemma_last_dot_at(n: Seq<char>, idx: int)
    requires
        -1 <= idx < n.len(),
        idx >= 0 ==> n[idx] == '.',
        forall|k: int| idx < k < n.len() ==> n[k] != '.',
    ensures
        last_dot(n) == idx,
    decreases n.len(),
{
    if n.len() == 0 {
    } else if idx == n.len() - 1 {
    } else {
        assert(n[n.len() - 1] != '.');
        lemma_last_dot_at(n.drop_last(), idx);
    }
}

/// The backup location for `path` at second `now_secs`.  Fails with
/// `NoFileName` exactly when the path has no final name component.
pub fn backup_file(backup_root: &str, path: &str, now_secs: u64) -> (r: Result<String, SyncError>)
    requires
        now_secs < TIMESTAMP_LIMIT,
    ensures
        match r {
            Ok(s) => backup_name(backup_root@, path@, now_secs) == Some(s@),
            Err(e) => e matches SyncError::NoFileName && backup_name(backup_root@, path@, now_secs)
                is None,
        },
{
    let p = str_chars(path);
    // find where the final name component starts
    let mut start: usize = p.len();
    while start > 0 && p[start - 1] != '/'
        invariant
            0 <= start <= p@.len(),
            forall|k: int| start <= k < p@.len() ==> p@[k] != '/',
        decreases start,
    {
        start = start - 1;
    }
    proof {
        lemma_file_name_start_at(p@, start as int);
    }
    let ghost n = file_name(path@);
    if start == p.len() {
        proof {
            assert(n =~= Seq::<char>::empty());
        }
        return Err(SyncError::NoFileName);
    }
    assert(n.len() == p@.len() - start);
    // find the last dot of the name
    let mut dot: usize = p.len();
    while dot > start && p[dot - 1] != '.'
        invariant
            start <= dot <= p@.len(),
            forall|k: int| dot <= k < p@.len() ==> p@[k] != '.',
        decreases dot,
    {
        dot = dot - 1;
    }
    let has_dot = dot > start;
    let ghost d = last_dot(n);
    proof {
        if has_dot {
            assert(n[dot - 1 - start] == p@[dot - 1]);
            assert(forall|k: int|
                dot - start <= k < n.len() ==> #[trigger] n[k] == p@[k + start] && n[k] != '.');
            lemma_last_dot_at(n, dot - 1 - start);
        } else {
            assert(forall|k: int|
                0 <= k < n.len() ==> #[trigger] n[k] == p@[k + start] && n[k] != '.');
            lemma_last_dot_at(n, -1);
        }
    }
    let stamp = format_timestamp(now_secs);
    let mut out: Vec<char> = Vec::new();
    append_str(&mut out, backup_root);
    out.push('/');
    // the stem
    let stem_end = if has_dot && dot - 1 > start {
        dot - 1
    } else {
        p.len()
    };
    proof {
        if has_dot && dot - 1 > start {
            assert(d == dot - 1 - start);
            assert(d > 0);
        } else if has_dot {
            assert(d == 0);
        } else {
            assert(d == -1);
        }
        assert(name_stem(n) =~= p@.subrange(start as int, stem_end as int));
    }
    let mut i: usize = start;
    while i < stem_end
        invariant
            start <= i <= stem_end <= p@.len(),
            out@ == backup_root@ + seq!['/'] + p@.subrange(start as int, i as int),
        decreases stem_end - i,
    {
        out.push(p[i]);
        assert(out@ =~= backup_root@ + seq!['/'] + p@.subrange(start as int, i + 1));
        i = i + 1;
    }
    append_str(&mut out, stamp.as_str());
    proof {
        assert(out@ =~= backup_root@ + seq!['/'] + name_stem(n) + timestamp_text(now_secs));
    }
    // the extension, when there is one
    if has_dot && dot - 1 > start {
        out.push('.');
        let mut j: usize = dot;
        while j < p.len()
            invariant
                dot <= j <= p@.len(),
                out@ == backup_root@ + seq!['/'] + name_stem(n) + timestamp_text(now_secs)
                    + seq!['.'] + p@.subrange(dot as int, j as int),
            decreases p@.len() - j,
        {
            out.push(p[j]);
            assert(out@ =~= backup_root@ + seq!['/'] + name_stem(n) + timestamp_text(now_secs)
                + seq!['.'] + p@.subrange(dot as int, j + 1));
            j = j + 1;
        }
        proof {
            assert(name_ext(n) =~= p@.subrange(dot as int, p@.len() as int));
            assert(out@ =~= backup_root@ + seq!['/'] + name_stem(n) + timestamp_text(now_secs)
                + seq!['.'] + name_ext(n));
        }
    }
    proof {
        assert(backup_name(backup_root@, path@, now_secs) == Some(out@));
    }
    Ok(chars_string(&out))
}

} // verus!
