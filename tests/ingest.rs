use ingester::cache::{var_key, Cache};
use ingester::constant::{encode_constant, ConstValue};
use ingester::ledger::{log_entry_from_commit, split_message, CommitInfo};
use ingester::numstat::{parse_count, parse_numstat, parse_numstat_line, NumstatError};
use ingester::paths::{canonical_type_path, member_path};
use ingester::snapshot::{plan_type, LinkError, SnapshotLinks, TypeObservation, VarObservation};
use ingester::text::{join_with, split_lines, split_words};
use ingester::walker::{decide_commit, CommitAction};

fn s(x: &str) -> String {
    x.to_string()
}

fn commit(hash: &str, parents: Vec<String>, message: &str) -> CommitInfo {
    CommitInfo {
        hash: s(hash),
        tree_hash: s("tree0"),
        parent_hashes: parents,
        author_name: s("ann"),
        author_email: s("ann@example.org"),
        author_time: 1_600_000_000,
        committer_name: s("cal"),
        committer_email: s("cal@example.org"),
        committer_time: 1_600_000_100,
        message: s(message),
    }
}

#[test]
fn numstat_unknown_counts() {
    let e = parse_numstat_line("- - renamed_path").unwrap().unwrap();
    assert_eq!(e.add, -1);
    assert_eq!(e.sub, -1);
    assert_eq!(e.path_state, "renamed_path");
}

#[test]
fn numstat_known_counts() {
    let e = parse_numstat_line("3 1 file.dm").unwrap().unwrap();
    assert_eq!(e.add, 3);
    assert_eq!(e.sub, 1);
    assert_eq!(e.path_state, "file.dm");
}

#[test]
fn numstat_tab_separated_and_zero() {
    let e = parse_numstat_line("0\t12\tcode/a.dm").unwrap().unwrap();
    assert_eq!((e.add, e.sub), (0, 12));
    assert_eq!(e.path_state, "code/a.dm");
}

#[test]
fn numstat_blank_line_is_skipped() {
    assert!(parse_numstat_line("").unwrap().is_none());
    assert!(parse_numstat_line("  \t ").unwrap().is_none());
}

#[test]
fn numstat_short_line_is_malformed() {
    assert_eq!(parse_numstat_line("3 1").unwrap_err(), NumstatError::MalformedLine);
}

#[test]
fn numstat_bad_counts() {
    assert_eq!(parse_numstat_line("x 1 a.dm").unwrap_err(), NumstatError::BadCount);
    assert_eq!(parse_numstat_line("1 -- a.dm").unwrap_err(), NumstatError::BadCount);
    assert_eq!(parse_count("2147483648"), Err(NumstatError::BadCount));
    assert_eq!(parse_count("99999999999"), Err(NumstatError::BadCount));
    assert_eq!(parse_count("2147483647"), Ok(2147483647));
    assert_eq!(parse_count("-"), Ok(-1));
    assert_eq!(parse_count(""), Err(NumstatError::BadCount));
}

#[test]
fn numstat_whole_report() {
    let v = parse_numstat("3 1 file.dm\n- - icon.dmi\n\n10 0 new.dm\n").unwrap();
    assert_eq!(v.len(), 3);
    assert_eq!((v[0].add, v[0].sub, v[0].path_state.as_str()), (3, 1, "file.dm"));
    assert_eq!((v[1].add, v[1].sub, v[1].path_state.as_str()), (-1, -1, "icon.dmi"));
    assert_eq!((v[2].add, v[2].sub, v[2].path_state.as_str()), (10, 0, "new.dm"));
    assert!(parse_numstat("").unwrap().is_empty());
    assert_eq!(parse_numstat("1 1 a\n2 b\n").unwrap_err(), NumstatError::MalformedLine);
}

#[test]
fn words_and_lines() {
    assert_eq!(split_words("  a\tbb \u{3000}c "), vec![s("a"), s("bb"), s("c")]);
    assert!(split_words("").is_empty());
    assert_eq!(split_lines("a\n\nb"), vec![s("a"), s(""), s("b")]);
    assert_eq!(split_lines(""), vec![s("")]);
    assert_eq!(join_with(&vec![s("a"), s("b"), s("c")], ","), "a,b,c");
    assert_eq!(join_with(&vec![], ","), "");
}

#[test]
fn canonical_paths() {
    assert_eq!(canonical_type_path("foo/bar"), "/foo/bar");
    assert_eq!(canonical_type_path("/foo/bar"), "/foo/bar");
    assert_eq!(canonical_type_path(""), "/");
    assert_eq!(member_path("/mob", "health"), "/mob/health");
}

#[test]
fn constant_encodings() {
    assert_eq!(encode_constant(&Some(ConstValue::Null)), "null");
    assert_eq!(encode_constant(&Some(ConstValue::Str(s("hi")))), "\"hi\"");
    assert_eq!(encode_constant(&Some(ConstValue::Prefab(s("/obj/item")))), "\"/obj/item\"");
    assert_eq!(encode_constant(&Some(ConstValue::Resource(s("a.dmi")))), "\"a.dmi\"");
    assert_eq!(encode_constant(&Some(ConstValue::Float(s("100")))), "100");
    assert_eq!(encode_constant(&Some(ConstValue::Unsupported)), "");
    assert_eq!(encode_constant(&None), "");
}

#[test]
fn type_lookup_is_idempotent() {
    let mut c = Cache::new();
    assert_eq!(c.get_type("/mob"), None);
    assert_eq!(c.remember_type("/mob", 7), 7);
    assert_eq!(c.get_type("/mob"), Some(7));
    assert_eq!(c.remember_type("/mob", 8), 7);
    assert_eq!(c.get_type("/mob"), Some(7));
}

#[test]
fn type_paths_collapse() {
    let mut c = Cache::new();
    c.remember_type("foo/bar", 3);
    assert_eq!(c.get_type("/foo/bar"), Some(3));
    assert_eq!(c.remember_type("/foo/bar", 4), 3);
}

#[test]
fn proc_lookup_is_idempotent() {
    let mut c = Cache::new();
    assert_eq!(c.get_proc("/mob/proc/die"), None);
    assert_eq!(c.remember_proc("/mob/proc/die", 1), 1);
    assert_eq!(c.remember_proc("/mob/proc/die", 2), 1);
    assert_eq!(c.get_proc("/mob/proc/die"), Some(1));
    assert_eq!(c.get_proc("mob/proc/die"), None);
}

#[test]
fn var_keys_distinguish_type_and_constant() {
    let mut c = Cache::new();
    let k1 = var_key("/mob/x", &None, &Some(ConstValue::Float(s("1"))));
    let k2 = var_key("/mob/x", &Some(vec![s("obj")]), &Some(ConstValue::Float(s("1"))));
    let k3 = var_key("/mob/x", &None, &Some(ConstValue::Float(s("2"))));
    let k4 = var_key("/mob/x", &None, &Some(ConstValue::Float(s("1"))));
    assert_eq!(k2.declared_type, Some(s("/obj")));
    assert_eq!(c.remember_var(k1, 1), 1);
    assert_eq!(c.remember_var(k2, 2), 2);
    assert_eq!(c.remember_var(k3, 3), 3);
    assert_eq!(c.get_var_decl(&k4), Some(1));
    assert_eq!(c.remember_var(k4, 9), 1);
}

#[test]
fn declared_type_segments_are_joined() {
    let k = var_key("/mob/pet", &Some(vec![s("mob"), s("living")]), &Some(ConstValue::Null));
    assert_eq!(k.path, "/mob/pet");
    assert_eq!(k.declared_type, Some(s("/mob/living")));
    assert_eq!(k.const_val, "null");
}

#[test]
fn proc_links_are_idempotent() {
    let mut l = SnapshotLinks::new();
    l.link_proc(5);
    l.link_proc(5);
    l.link_proc(6);
    assert_eq!(l.proc_ids(), &vec![5, 6]);
}

#[test]
fn type_and_var_links_refuse_duplicates() {
    let mut l = SnapshotLinks::new();
    assert_eq!(l.link_type(1), Ok(()));
    assert_eq!(l.link_type(1), Err(LinkError::Duplicate));
    assert_eq!(l.type_ids(), &vec![1]);
    assert_eq!(l.link_var(2), Ok(()));
    assert_eq!(l.link_var(2), Err(LinkError::Duplicate));
    assert_eq!(l.var_ids(), &vec![2]);
}

#[test]
fn plan_lists_keys() {
    let t = TypeObservation {
        path: s("/mob"),
        procs: vec![s("Login"), s("Login")],
        vars: vec![VarObservation { name: s("health"), declared_type: None, constant: Some(ConstValue::Float(s("100"))) }],
    };
    let p = plan_type(&t);
    assert_eq!(p.type_path, "/mob");
    assert_eq!(p.proc_paths, vec![s("/mob/Login"), s("/mob/Login")]);
    assert_eq!(p.var_keys[0].path, "/mob/health");
    assert_eq!(p.var_keys[0].const_val, "100");
}

#[test]
fn walker_decisions() {
    assert_eq!(decide_commit(false, false), CommitAction::SkipNoEntryPoint);
    assert_eq!(decide_commit(false, true), CommitAction::SkipNoEntryPoint);
    assert_eq!(decide_commit(true, true), CommitAction::SkipIngested);
    assert_eq!(decide_commit(true, false), CommitAction::Ingest);
}

#[test]
fn message_split() {
    assert_eq!(split_message("fix\n\nlonger text"), (s("fix"), s("\nlonger text")));
    assert_eq!(split_message("one line"), (s("one line"), s("")));
    assert_eq!(split_message(""), (s(""), s("")));
}

#[test]
fn ledger_record_of_commit() {
    let c = commit("abc", vec![s("aaa1"), s("bbb2")], "subject\nbody");
    let r = log_entry_from_commit(&c, "3 1 file.dm\n- - bin.dmi\n").ok().unwrap();
    assert_eq!(r.entry.commit_hash, "abc");
    assert_eq!(r.entry.tree_hash, "tree0");
    assert_eq!(r.entry.parent_hashes, "aaa1,bbb2");
    assert_eq!(r.entry.subject, "subject");
    assert_eq!(r.entry.body, "body");
    assert_eq!(r.entry.author_time, 1_600_000_000);
    assert_eq!(r.entry.committer_email, "cal@example.org");
    assert_eq!(r.numstat.len(), 2);
    assert_eq!((r.numstat[1].add, r.numstat[1].sub), (-1, -1));
}

#[test]
fn ledger_root_commit_has_no_numstat() {
    let c = commit("root", vec![], "init");
    let r = log_entry_from_commit(&c, "garbage").ok().unwrap();
    assert_eq!(r.entry.parent_hashes, "");
    assert!(r.numstat.is_empty());
}

#[test]
fn ledger_bad_report_fails() {
    let c = commit("abc", vec![s("aaa1")], "m");
    assert!(matches!(log_entry_from_commit(&c, "1 x f"), Err(NumstatError::BadCount)));
}

// Two commits: A introduces /mob with health = 100, B changes it to 50.
#[test]
fn two_commit_history() {
    let mut cache = Cache::new();
    let mut next_id: i32 = 1;
    let mut snapshots: Vec<Vec<i32>> = Vec::new();
    for value in ["100", "50"] {
        let t = TypeObservation {
            path: s("/mob"),
            procs: vec![],
            vars: vec![VarObservation { name: s("health"), declared_type: None, constant: Some(ConstValue::Float(s(value))) }],
        };
        let plan = plan_type(&t);
        let mut links = SnapshotLinks::new();
        let tid = match cache.get_type(&plan.type_path) {
            Some(id) => id,
            None => {
                next_id += 1;
                cache.remember_type(&plan.type_path, next_id)
            }
        };
        links.link_type(tid).unwrap();
        for key in plan.var_keys {
            let vid = match cache.get_var_decl(&key) {
                Some(id) => id,
                None => {
                    next_id += 1;
                    cache.remember_var(key, next_id)
                }
            };
            links.link_var(vid).unwrap();
        }
        snapshots.push(links.var_ids().clone());
    }
    assert_eq!(snapshots.len(), 2);
    assert_ne!(snapshots[0], snapshots[1]);
    let k100 = var_key("/mob/health", &None, &Some(ConstValue::Float(s("100"))));
    let k50 = var_key("/mob/health", &None, &Some(ConstValue::Float(s("50"))));
    assert_eq!(snapshots[0], vec![cache.get_var_decl(&k100).unwrap()]);
    assert_eq!(snapshots[1], vec![cache.get_var_decl(&k50).unwrap()]);
    assert_eq!(cache.get_type("mob"), Some(2));
}
