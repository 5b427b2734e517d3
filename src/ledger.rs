//! The durable ledger record of one commit.
use vstd::prelude::*;
use vstd::string::*;
use crate::numstat::{NumstatEntry, NumstatError, parse_numstat, report_entries};
use crate::text::{joined, views, join_with};

verus! {

/// A commit's metadata, as plain values.
pub struct CommitInfo {
    pub hash: String,
    pub tree_hash: String,
    /// Parent hashes, first parent first.
    pub parent_hashes: Vec<String>,
    pub author_name: String,
    pub author_email: String,
    /// Seconds since the Unix epoch.
    pub author_time: i64,
    pub committer_name: String,
    pub committer_email: String,
    /// Seconds since the Unix epoch.
    pub committer_time: i64,
    pub message: String,
}

/// One row of the commit ledger.
pub struct LogEntry {
    pub commit_hash: String,
    pub tree_hash: String,
    /// Parent hashes joined by commas.
    pub parent_hashes: String,
    pub author_name: String,
    pub author_email: String,
    pub author_time: i64,
    pub committer_name: String,
    pub committer_email: String,
    pub committer_time: i64,
    pub subject: String,
    pub body: String,
}

/// A ledger row with the per-path statistics that reference it.
pub struct LedgerRecord {
    pub entry: LogEntry,
    pub numstat: Vec<NumstatEntry>,
}

/// Splits a commit message at its first newline into a subject and a body;
/// a message without a newline is all subject, with an empty body.
pub fn split_message(msg: &str) -> (r: (String, String))
    ensures
        !r.0@.contains('\n'),
        msg@.contains('\n') ==> msg@ == r.0@ + seq!['\n'] + r.1@,
        !msg@.contains('\n') ==> r.0@ == msg@ && r.1@.len() == 0,
{
    let n = msg.unicode_len();
    let mut i: usize = 0;
    while i < n
        invariant
            n == msg@.len(),
            i <= n,
            forall|k: int| 0 <= k < i ==> msg@[k] != '\n',
        decreases n - i,
    {
        if msg.get_char(i) == '\n' {
            let subject = String::from_str(msg.substring_char(0, i));
            let body = String::from_str(msg.substring_char(i + 1, n));
            assert(msg@ =~= subject@ + seq!['\n'] + body@);
            assert(!subject@.contains('\n')) by {
                if subject@.contains('\n') {
                    let k = choose|k: int| 0 <= k < subject@.len() && subject@[k] == '\n';
                    assert(msg@[k] == '\n');
                }
            }
            return (subject, body);
        }
        i = i + 1;
    }
    assert(!msg@.contains('\n')) by {
        if msg@.contains('\n') {
            let k = choose|k: int| 0 <= k < msg@.len() && msg@[k] == '\n';
            assert(msg@[k] != '\n');
        }
    }
    (String::from_str(msg), String::new())
}

/// Builds the ledger record of a commit from its metadata and the numeric
/// diff-stats report against its first parent. A commit without parents has
/// no report to read and gets no statistics.
pub fn log_entry_from_commit(commit: &CommitInfo, report: &str) -> (r: Result<LedgerRecord, NumstatError>)
    ensures
        commit.parent_hashes@.len() > 0 ==> (r is Err <==> report_entries(report@) is Err),
        commit.parent_hashes@.len() > 0 ==> (r matches Err(e) ==> report_entries(report@)
            == Err::<Seq<(int, int, Seq<char>)>, NumstatError>(e)),
        commit.parent_hashes@.len() == 0 ==> r is Ok,
        r matches Ok(rec) ==> {
            &&& rec.entry.commit_hash@ == commit.hash@
            &&& rec.entry.tree_hash@ == commit.tree_hash@
            &&& rec.entry.parent_hashes@ == joined(views(commit.parent_hashes@), seq![','])
            &&& rec.entry.author_name@ == commit.author_name@
            &&& rec.entry.author_email@ == commit.author_email@
            &&& rec.entry.author_time == commit.author_time
            &&& rec.entry.committer_name@ == commit.committer_name@
            &&& rec.entry.committer_email@ == commit.committer_email@
            &&& rec.entry.committer_time == commit.committer_time
            &&& !rec.entry.subject@.contains('\n')
            &&& (commit.message@.contains('\n') ==> commit.message@ == rec.entry.subject@
                + seq!['\n'] + rec.entry.body@)
            &&& (!commit.message@.contains('\n') ==> rec.entry.subject@ == commit.message@
                && rec.entry.body@.len() == 0)
            &&& (commit.parent_hashes@.len() == 0 ==> rec.numstat@.len() == 0)
            &&& (commit.parent_hashes@.len() > 0 ==> report_entries(report@)
                == Ok::<Seq<(int, int, Seq<char>)>, NumstatError>(
                rec.numstat@.map_values(|e: NumstatEntry| e@),
            ))
        },
{
    proof {
        reveal_strlit(",");
        assert(","@ =~= seq![',']);
    }
    let numstat = if commit.parent_hashes.len() == 0 {
        Vec::new()
    } else {
        match parse_numstat(report) {
            Ok(v) => v,
            Err(e) => return Err(e),
        }
    };
    let (subject, body) = split_message(commit.message.as_str());
    let parent_hashes = join_with(&commit.parent_hashes, ",");
    assert(parent_hashes@ == joined(views(commit.parent_hashes@), seq![',']));
    let entry = LogEntry {
        commit_hash: commit.hash.clone(),
        tree_hash: commit.tree_hash.clone(),
        parent_hashes,
        author_name: commit.author_name.clone(),
        author_email: commit.author_email.clone(),
        author_time: commit.author_time,
        committer_name: commit.committer_name.clone(),
        committer_email: commit.committer_email.clone(),
        committer_time: commit.committer_time,
        subject,
        body,
    };
    Ok(LedgerRecord { entry, numstat })
}

} // verus!
