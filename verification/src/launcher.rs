//! The launcher's decisions: which entries of the search folders are
//! versions of the application, the order in which they are tried (newest
//! first), and which file in a version folder is the program.
use vstd::prelude::*;
use std::path::PathBuf;
use crate::text::{
    chars_of, eq_ignore_ascii_case, eq_ignore_case, ends_with, ends_with_text, is_ascii_alphanumeric,
    is_ascii_digit, ascii_alphanumeric, owned, push_str, string_of,
};

verus! {

broadcast use vstd::string::group_string_axioms;

// ---------------------------------------------------------------------------
// Configuration
// ---------------------------------------------------------------------------

/// Where the launcher looks for versions, and the program's file name when
/// it is fixed.
pub struct LauncherConfig {
    pub search_dirs: Vec<String>,
    pub executable_name: Option<String>,
}

pub open spec fn texts(v: Seq<String>) -> Seq<Seq<char>> {
    v.map_values(|s: String| s@)
}

/// The folders searched when the configuration names none.
pub fn default_search_dirs() -> (r: Vec<String>)
    ensures
        texts(r@) == seq!["versions"@, "app"@, "."@],
{
    let mut v: Vec<String> = Vec::new();
    v.push(owned("versions"));
    v.push(owned("app"));
    v.push(owned("."));
    assert(texts(v@) =~= seq!["versions"@, "app"@, "."@]);
    v
}

impl Default for LauncherConfig {
    fn default() -> (r: LauncherConfig)
        ensures
            texts(r.search_dirs@) == seq!["versions"@, "app"@, "."@],
            r.executable_name is None,
    {
        LauncherConfig { search_dirs: default_search_dirs(), executable_name: None }
    }
}

// ---------------------------------------------------------------------------
// Versions
// ---------------------------------------------------------------------------

/// Whether `semver` parses this text as a version.
pub uninterp spec fn semver_accepts(text: Seq<char>) -> bool;

/// Whether the version that `semver` parses from `a` is lower than the one
/// it parses from `b`.
pub uninterp spec fn semver_older(a: Seq<char>, b: Seq<char>) -> bool;

/// Calls `semver::Version::parse` and tells whether it succeeded; the
/// contract says that this depends on the text alone.
#[verifier::external_body]
fn parses_as_version(text: &str) -> (r: bool)
    ensures
        r == semver_accepts(text@),
{
    semver::Version::parse(text).is_ok()
}

/// Parses two version texts with `semver::Version::parse` and compares the
/// versions with `<` (the order that `semver::Version` derives). The
/// contract says that the answer depends on the two texts alone and, since
/// the order is a total order, that two versions are never each lower than
/// the other.
#[verifier::external_body]
fn version_older(a: &str, b: &str) -> (r: bool)
    requires
        semver_accepts(a@),
        semver_accepts(b@),
    ensures
        r == semver_older(a@, b@),
        r ==> !semver_older(b@, a@),
{
    match (semver::Version::parse(a), semver::Version::parse(b)) {
        (Ok(x), Ok(y)) => x < y,
        _ => false,
    }
}

/// The position of the first ASCII digit at or after `i`.
pub open spec fn first_digit_from(s: Seq<char>, i: int) -> Option<int>
    decreases s.len() - i,
{
    if i < 0 || i >= s.len() {
        None
    } else if is_ascii_digit(s[i]) {
        Some(i)
    } else {
        first_digit_from(s, i + 1)
    }
}

/// A character that may appear in a version: an ASCII letter or digit, `.`,
/// `-` or `+`.
pub open spec fn version_char(c: char) -> bool {
    is_ascii_alphanumeric(c) || c == '.' || c == '-' || c == '+'
}

/// The end of the run of version characters that starts at `i`.
pub open spec fn version_run_end(s: Seq<char>, i: int) -> int
    decreases s.len() - i,
{
    if i < 0 || i >= s.len() {
        s.len() as int
    } else if !version_char(s[i]) {
        i
    } else {
        version_run_end(s, i + 1)
    }
}

/// The version in a file or folder name: from its first digit, the rest of
/// the name when it parses as a version, else the run of version characters
/// there when that parses.
pub open spec fn extracted_version(name: Seq<char>) -> Option<Seq<char>> {
    match first_digit_from(name, 0) {
        None => None,
        Some(d) => {
            let rest = name.subrange(d, name.len() as int);
            if semver_accepts(rest) {
                Some(rest)
            } else {
                let run = name.subrange(d, version_run_end(name, d));
                if semver_accepts(run) {
                    Some(run)
                } else {
                    None
                }
            }
        },
    }
}

proof fn lemma_first_digit_range(s: Seq<char>, i: int)
    ensures
        first_digit_from(s, i) matches Some(d) ==> 0 <= i <= d < s.len(),
    decreases s.len() - i,
{
    if 0 <= i < s.len() && !is_ascii_digit(s[i]) {
        lemma_first_digit_range(s, i + 1);
    }
}

proof fn lemma_run_end_range(s: Seq<char>, i: int)
    requires
        0 <= i <= s.len(),
    ensures
        i <= version_run_end(s, i) <= s.len(),
    decreases s.len() - i,
{
    if i < s.len() && version_char(s[i]) {
        lemma_run_end_range(s, i + 1);
    }
}

/// The text of the version in a file or folder name.
pub fn extract_version(name: &str) -> (r: Option<String>)
    ensures
        match extracted_version(name@) {
            Some(v) => r matches Some(s) && s@ == v,
            None => r is None,
        },
        r matches Some(s) ==> semver_accepts(s@),
{
    let v = chars_of(name);
    let n = v.len();
    let mut d: usize = 0;
    while d < n && !(v[d] >= '0' && v[d] <= '9')
        invariant
            v@ == name@,
            n == v@.len(),
            d <= n,
            first_digit_from(name@, 0) == first_digit_from(name@, d as int),
        decreases n - d,
    {
        d = d + 1;
    }
    if d == n {
        return None;
    }
    proof {
        lemma_first_digit_range(name@, 0);
    }
    let rest = string_of(&v, d, n);
    if parses_as_version(rest.as_str()) {
        return Some(rest);
    }
    let mut e: usize = d;
    while e < n && (ascii_alphanumeric(v[e]) || v[e] == '.' || v[e] == '-' || v[e] == '+')
        invariant
            v@ == name@,
            n == v@.len(),
            d <= e <= n,
            version_run_end(name@, d as int) == version_run_end(name@, e as int),
        decreases n - e,
    {
        e = e + 1;
    }
    let run = string_of(&v, d, e);
    if parses_as_version(run.as_str()) {
        Some(run)
    } else {
        None
    }
}

// ---------------------------------------------------------------------------
// Candidates
// ---------------------------------------------------------------------------

/// A version folder, or a program file whose name carries a version.
#[derive(Debug, Clone, Copy, PartialEq, Eq, Structural)]
pub enum CandidateType {
    Directory,
    File,
}

/// A version of the application found in a search folder.
pub struct Candidate {
    pub version: String,
    pub path: PathBuf,
    pub candidate_type: CandidateType,
}

/// What the launcher knows of an entry of a search folder.
pub struct EntryFacts {
    /// The entry's file name.
    pub name: String,
    pub is_dir: bool,
    pub is_file: bool,
    /// The entry's extension, when it has one.
    pub extension: Option<String>,
    /// The entry's file name without its extension, when it has one.
    pub stem: Option<String>,
    /// The entry is the launcher's own program file.
    pub is_launcher: bool,
}

/// A program file: an `exe` extension in any ASCII case.
pub open spec fn is_exe(extension: Option<String>) -> bool {
    extension matches Some(e) && eq_ignore_ascii_case(e@, "exe"@)
}

/// The version that an entry offers, and whether it is a folder: a folder
/// whose name carries a version, or a program file other than the launcher
/// whose stem (or name) carries one.
pub open spec fn offered_version(f: EntryFacts) -> Option<(Seq<char>, CandidateType)> {
    if f.is_dir {
        match extracted_version(f.name@) {
            Some(v) => Some((v, CandidateType::Directory)),
            None => None,
        }
    } else if f.is_file && is_exe(f.extension) && !f.is_launcher {
        let stem = match f.stem {
            Some(s) => s@,
            None => f.name@,
        };
        match extracted_version(stem) {
            Some(v) => Some((v, CandidateType::File)),
            None => None,
        }
    } else {
        None
    }
}

/// The candidate that an entry at `path` offers.
pub fn candidate_of(facts: EntryFacts, path: PathBuf) -> (r: Option<Candidate>)
    ensures
        match offered_version(facts) {
            Some((v, t)) => r matches Some(c) && c.version@ == v && c.candidate_type == t && c.path
                == path,
            None => r is None,
        },
        r matches Some(c) ==> semver_accepts(c.version@),
{
    if facts.is_dir {
        match extract_version(facts.name.as_str()) {
            Some(version) => Some(Candidate { version, path, candidate_type: CandidateType::Directory }),
            None => None,
        }
    } else if facts.is_file && !facts.is_launcher {
        let exe = match &facts.extension {
            Some(e) => eq_ignore_case(e.as_str(), "exe"),
            None => false,
        };
        if !exe {
            return None;
        }
        let stem = match facts.stem {
            Some(s) => s,
            None => facts.name,
        };
        match extract_version(stem.as_str()) {
            Some(version) => Some(Candidate { version, path, candidate_type: CandidateType::File }),
            None => None,
        }
    } else {
        None
    }
}

/// `r` holds the elements of `s` rearranged: element `k` of `r` is element
/// `p[k]` of `s`, and no element of `s` is taken twice.
pub open spec fn rearranges<T>(r: Seq<T>, s: Seq<T>, p: Seq<int>) -> bool {
    &&& r.len() == s.len()
    &&& p.len() == r.len()
    &&& forall|k: int| 0 <= k < r.len() ==> 0 <= #[trigger] p[k] < s.len() && r[k] == s[p[k]]
    &&& forall|k1: int, k2: int|
        0 <= k1 < r.len() && 0 <= k2 < r.len() && k1 != k2 ==> #[trigger] p[k1] != #[trigger] p[k2]
}

/// No candidate is followed by a newer one.
pub open spec fn newest_version_first(s: Seq<Candidate>) -> bool {
    forall|k: int| 0 <= k < s.len() - 1 ==> !semver_older(#[trigger] s[k].version@, s[k + 1].version@)
}

/// Two versions are equal: neither is lower than the other.
pub open spec fn same_version(a: Seq<char>, b: Seq<char>) -> bool {
    !semver_older(a, b) && !semver_older(b, a)
}

/// Of two candidates with equal versions, the one found first (`p` gives
/// where each came from) comes first.
pub open spec fn keeps_found_order(r: Seq<Candidate>, p: Seq<int>) -> bool {
    forall|k1: int, k2: int|
        0 <= k1 < k2 < r.len() && same_version(r[k1].version@, r[k2].version@) ==> #[trigger] p[k1]
            < #[trigger] p[k2]
}

/// The candidates in the order they are tried: newest version first; of
/// equal versions, the one found first.
pub fn order_candidates(candidates: Vec<Candidate>) -> (r: Vec<Candidate>)
    requires
        forall|k: int| 0 <= k < candidates@.len() ==> semver_accepts(#[trigger] candidates@[k].version@),
    ensures
        exists|p: Seq<int>| #[trigger] rearranges(r@, candidates@, p) && keeps_found_order(r@, p),
        newest_version_first(r@),
{
    let ghost orig = candidates@;
    let mut rest = candidates;
    let mut out: Vec<Candidate> = Vec::new();
    let ghost mut pos: Seq<int> = Seq::empty();
    let n = rest.len();
    let mut i: usize = 0;
    while i < n
        invariant
            n == orig.len(),
            i <= n,
            rest@ == orig.skip(i as int),
            forall|k: int| 0 <= k < orig.len() ==> semver_accepts(#[trigger] orig[k].version@),
            out@.len() == i,
            pos.len() == i,
            forall|k: int| 0 <= k < i ==> 0 <= #[trigger] pos[k] < i && out@[k] == orig[pos[k]],
            forall|k1: int, k2: int|
                0 <= k1 < i && 0 <= k2 < i && k1 != k2 ==> #[trigger] pos[k1] != #[trigger] pos[k2],
            newest_version_first(out@),
            keeps_found_order(out@, pos),
        decreases n - i,
    {
        assert(rest@[0] == orig[i as int]);
        let c = rest.remove(0);
        assert(rest@ =~= orig.skip(i + 1));
        assert forall|k: int| 0 <= k < out@.len() implies semver_accepts(#[trigger] out@[k].version@) by {
            assert(out@[k] == orig[pos[k]]);
        }
        let mut p: usize = out.len();
        while p > 0 && version_older(out[p - 1].version.as_str(), c.version.as_str())
            invariant
                p <= out@.len(),
                semver_accepts(c.version@),
                forall|k: int| 0 <= k < out@.len() ==> semver_accepts(#[trigger] out@[k].version@),
                forall|k: int|
                    p <= k < out@.len() ==> semver_older(#[trigger] out@[k].version@, c.version@)
                        && !semver_older(c.version@, out@[k].version@),
            decreases p,
        {
            p = p - 1;
        }
        let ghost old_out = out@;
        let ghost old_pos = pos;
        let ghost cv = c.version@;
        out.insert(p, c);
        proof {
            pos = old_pos.insert(p as int, i as int);
            assert forall|k: int| 0 <= k < out@.len() - 1 implies !semver_older(
                #[trigger] out@[k].version@,
                out@[k + 1].version@,
            ) by {
                if k + 1 < p {
                    assert(out@[k] == old_out[k] && out@[k + 1] == old_out[k + 1]);
                } else if k + 1 == p {
                    assert(out@[k] == old_out[k]);
                } else if k == p {
                    assert(out@[k + 1] == old_out[k]);
                } else {
                    assert(out@[k] == old_out[k - 1] && out@[k + 1] == old_out[k]);
                }
            }
            assert forall|k: int| 0 <= k < i + 1 implies 0 <= #[trigger] pos[k] < i + 1 && out@[k]
                == orig[pos[k]] by {
                if k < p {
                    assert(pos[k] == old_pos[k]);
                } else if k > p {
                    assert(pos[k] == old_pos[k - 1]);
                }
            }
            assert forall|k1: int, k2: int|
                0 <= k1 < i + 1 && 0 <= k2 < i + 1 && k1 != k2 implies #[trigger] pos[k1]
                != #[trigger] pos[k2] by {
                if k1 != p && k2 != p {
                    let o1 = if k1 < p { k1 } else { k1 - 1 };
                    let o2 = if k2 < p { k2 } else { k2 - 1 };
                    assert(pos[k1] == old_pos[o1]);
                    assert(pos[k2] == old_pos[o2]);
                } else if k1 == p {
                    let o2 = if k2 < p { k2 } else { k2 - 1 };
                    assert(pos[k2] == old_pos[o2]);
                } else {
                    let o1 = if k1 < p { k1 } else { k1 - 1 };
                    assert(pos[k1] == old_pos[o1]);
                }
            }
            assert forall|k1: int, k2: int|
                0 <= k1 < k2 < out@.len() && same_version(
                    out@[k1].version@,
                    out@[k2].version@,
                ) implies #[trigger] pos[k1] < #[trigger] pos[k2] by {
                if k1 != p && k2 != p {
                    let o1 = if k1 < p { k1 } else { k1 - 1 };
                    let o2 = if k2 < p { k2 } else { k2 - 1 };
                    assert(pos[k1] == old_pos[o1] && out@[k1] == old_out[o1]);
                    assert(pos[k2] == old_pos[o2] && out@[k2] == old_out[o2]);
                } else if k2 == p {
                    assert(pos[k1] == old_pos[k1]);
                } else {
                    assert(out@[k2] == old_out[k2 - 1]);
                    assert(semver_older(out@[k2].version@, cv));
                }
            }
        }
        i = i + 1;
    }
    assert(rearranges(out@, orig, pos) && keeps_found_order(out@, pos));
    out
}

/// `c` holds, in the entries' order, the candidates that the entries offer:
/// candidate `k` comes from entry `p[k]`, and every entry that offers one is
/// taken.
pub open spec fn collected(c: Seq<Candidate>, entries: Seq<(EntryFacts, PathBuf)>, p: Seq<int>) -> bool {
    &&& p.len() == c.len()
    &&& forall|k: int|
        0 <= k < c.len() ==> 0 <= #[trigger] p[k] < entries.len() && offered_version(entries[p[k]].0)
            == Some((c[k].version@, c[k].candidate_type)) && c[k].path == entries[p[k]].1
    &&& forall|k1: int, k2: int| 0 <= k1 < k2 < c.len() ==> #[trigger] p[k1] < #[trigger] p[k2]
    &&& forall|j: int|
        0 <= j < entries.len() && (#[trigger] offered_version(entries[j].0)) is Some ==> exists|k: int|
            0 <= k < c.len() && #[trigger] p[k] == j
}

/// The candidates that the entries of the search folders offer, in the
/// entries' order.
pub fn collect_candidates(entries: Vec<(EntryFacts, PathBuf)>) -> (r: Vec<Candidate>)
    ensures
        exists|p: Seq<int>| collected(r@, entries@, p),
        forall|k: int| 0 <= k < r@.len() ==> semver_accepts(#[trigger] r@[k].version@),
{
    let ghost orig = entries@;
    let mut rest = entries;
    let mut out: Vec<Candidate> = Vec::new();
    let ghost mut pos: Seq<int> = Seq::empty();
    let n = rest.len();
    let mut i: usize = 0;
    while i < n
        invariant
            n == orig.len(),
            i <= n,
            rest@ == orig.skip(i as int),
            pos.len() == out@.len(),
            forall|k: int|
                0 <= k < out@.len() ==> 0 <= #[trigger] pos[k] < i && offered_version(orig[pos[k]].0)
                    == Some((out@[k].version@, out@[k].candidate_type)) && out@[k].path == orig[pos[k]].1,
            forall|k1: int, k2: int| 0 <= k1 < k2 < out@.len() ==> #[trigger] pos[k1] < #[trigger] pos[k2],
            forall|j: int|
                0 <= j < i && (#[trigger] offered_version(orig[j].0)) is Some ==> exists|k: int|
                    0 <= k < out@.len() && #[trigger] pos[k] == j,
            forall|k: int| 0 <= k < out@.len() ==> semver_accepts(#[trigger] out@[k].version@),
        decreases n - i,
    {
        assert(rest@[0] == orig[i as int]);
        let (facts, path) = rest.remove(0);
        assert(rest@ =~= orig.skip(i + 1));
        let ghost old_pos = pos;
        let ghost old_len = out@.len();
        match candidate_of(facts, path) {
            Some(c) => {
                out.push(c);
                proof {
                    pos = old_pos.push(i as int);
                    assert forall|j: int|
                        0 <= j < i + 1 && (#[trigger] offered_version(orig[j].0)) is Some implies exists|k: int|
                        0 <= k < out@.len() && #[trigger] pos[k] == j by {
                        if j == i {
                            assert(pos[old_len as int] == j);
                        } else {
                            let k = choose|k: int| 0 <= k < old_len && #[trigger] old_pos[k] == j;
                            assert(pos[k] == j);
                        }
                    }
                }
            },
            None => {
                proof {
                    assert forall|j: int|
                        0 <= j < i + 1 && (#[trigger] offered_version(orig[j].0)) is Some implies exists|k: int|
                        0 <= k < out@.len() && #[trigger] pos[k] == j by {
                        if j < i {
                            let k = choose|k: int| 0 <= k < old_len && #[trigger] old_pos[k] == j;
                            assert(pos[k] == j);
                        }
                    }
                }
            },
        }
        i = i + 1;
    }
    assert(collected(out@, orig, pos));
    out
}

/// The versions that the entries of the search folders offer, in the order
/// they are tried: newest first.
pub fn launch_order(entries: Vec<(EntryFacts, PathBuf)>) -> (r: Vec<Candidate>)
    ensures
        exists|c: Seq<Candidate>, p: Seq<int>, q: Seq<int>|
            #[trigger] collected(c, entries@, p) && #[trigger] rearranges(r@, c, q)
                && keeps_found_order(r@, q),
        newest_version_first(r@),
{
    let ghost e = entries@;
    let c = collect_candidates(entries);
    let ghost cv = c@;
    let ghost p = choose|p: Seq<int>| collected(cv, e, p);
    let r = order_candidates(c);
    let ghost q = choose|q: Seq<int>| rearranges(r@, cv, q) && keeps_found_order(r@, q);
    assert(collected(cv, e, p) && rearranges(r@, cv, q) && keeps_found_order(r@, q));
    r
}

// ---------------------------------------------------------------------------
// The program in a version folder
// ---------------------------------------------------------------------------

/// The file names tried first in a version folder, in order: the configured
/// name, then that name with `.exe` added when it does not end so; the
/// launcher's own file name; `tauri-app.exe`.
pub open spec fn probe_names(configured: Option<Seq<char>>, launcher: Option<Seq<char>>) -> Seq<
    Seq<char>,
> {
    (match configured {
        Some(n) => if ends_with_text(n, ".exe"@) {
            seq![n]
        } else {
            seq![n, n + ".exe"@]
        },
        None => seq![],
    }) + (match launcher {
        Some(l) => seq![l],
        None => seq![],
    }) + seq!["tauri-app.exe"@]
}

pub open spec fn opt_texts(o: Option<String>) -> Option<Seq<char>> {
    match o {
        Some(s) => Some(s@),
        None => None,
    }
}

/// The file names to try first in a version folder.
pub fn exe_probe_names(executable_name: &Option<String>, launcher_name: &Option<String>) -> (r: Vec<
    String,
>)
    ensures
        texts(r@) == probe_names(opt_texts(*executable_name), opt_texts(*launcher_name)),
{
    let mut v: Vec<String> = Vec::new();
    if let Some(name) = executable_name {
        v.push(name.clone());
        if !ends_with(name.as_str(), ".exe") {
            let mut with_ext = name.clone();
            push_str(&mut with_ext, ".exe");
            v.push(with_ext);
        }
    }
    if let Some(l) = launcher_name {
        v.push(l.clone());
    }
    v.push(owned("tauri-app.exe"));
    assert(texts(v@) =~= probe_names(opt_texts(*executable_name), opt_texts(*launcher_name)));
    v
}

/// An entry of a version folder.
pub struct FolderEntry {
    pub file_name: String,
    pub is_file: bool,
    pub extension: Option<String>,
}

/// An entry that may be the program: a file with an `exe` extension that
/// is not named as the launcher.
pub open spec fn other_program(e: FolderEntry, launcher: Option<Seq<char>>) -> bool {
    e.is_file && is_exe(e.extension) && launcher != Some(e.file_name@)
}

/// The position of the first entry that may be the program, the last resort
/// when no probed name exists.
pub fn first_other_program(entries: &[FolderEntry], launcher_name: &Option<String>) -> (r: Option<
    usize,
>)
    ensures
        match r {
            Some(i) => i < entries@.len() && other_program(entries@[i as int], opt_texts(*launcher_name))
                && forall|j: int| 0 <= j < i ==> !other_program(#[trigger] entries@[j], opt_texts(*launcher_name)),
            None => forall|j: int| 0 <= j < entries@.len() ==> !other_program(#[trigger] entries@[j], opt_texts(*launcher_name)),
        },
{
    let mut i: usize = 0;
    while i < entries.len()
        invariant
            i <= entries@.len(),
            forall|j: int| 0 <= j < i ==> !other_program(#[trigger] entries@[j], opt_texts(*launcher_name)),
        decreases entries.len() - i,
    {
        let e = &entries[i];
        let exe = match &e.extension {
            Some(x) => eq_ignore_case(x.as_str(), "exe"),
            None => false,
        };
        let same = match launcher_name {
            Some(l) => crate::text::same_text(l.as_str(), e.file_name.as_str()),
            None => false,
        };
        if e.is_file && exe && !same {
            return Some(i);
        }
        i = i + 1;
    }
    None
}

// ---------------------------------------------------------------------------
// Messages
// ---------------------------------------------------------------------------

/// The scanned folders, one line each, `  - ` before each.
pub open spec fn folder_lines(s: Seq<Seq<char>>) -> Seq<char>
    decreases s.len(),
{
    if s.len() == 0 {
        Seq::empty()
    } else if s.len() == 1 {
        "  - "@ + s[0]
    } else {
        folder_lines(s.drop_last()) + "\n  - "@ + s.last()
    }
}

pub open spec fn no_candidates_text(scanned: Seq<Seq<char>>) -> Seq<char> {
    "未找到任何可用的版本文件夹（如 versions/0.1.0/）或版本化程序文件（如 ClearClip_v0.1.0.exe）。\n\n已检索的路径：\n"@
        + folder_lines(scanned)
}

/// The error when no search folder holds a version, listing the folders
/// searched (each as the path's debug form).
pub fn no_candidates_message(scanned: &[String]) -> (r: String)
    ensures
        r@ == no_candidates_text(texts(scanned@)),
{
    let mut m = owned(
        "未找到任何可用的版本文件夹（如 versions/0.1.0/）或版本化程序文件（如 ClearClip_v0.1.0.exe）。\n\n已检索的路径：\n",
    );
    let ghost head = m@;
    let mut i: usize = 0;
    while i < scanned.len()
        invariant
            i <= scanned@.len(),
            m@ == head + folder_lines(texts(scanned@.take(i as int))),
        decreases scanned.len() - i,
    {
        let ghost before = m@;
        assert(texts(scanned@.take(i + 1)).drop_last() =~= texts(scanned@.take(i as int)));
        assert(texts(scanned@.take(i + 1)).last() == scanned@[i as int]@);
        if i == 0 {
            push_str(&mut m, "  - ");
        } else {
            push_str(&mut m, "\n  - ");
        }
        push_str(&mut m, scanned[i].as_str());
        assert(m@ =~= head + folder_lines(texts(scanned@.take(i + 1))));
        i = i + 1;
    }
    assert(scanned@.take(scanned@.len() as int) == scanned@);
    m
}

/// The error when versions were found but none held a program.
pub fn no_program_message() -> (r: String)
    ensures
        r@ == "找到了版本文件夹/文件，但未在其中找到有效的主程序可执行文件。"@,
{
    owned("找到了版本文件夹/文件，但未在其中找到有效的主程序可执行文件。")
}


/// The launcher's own file name is always probed in a version folder, right
/// before `tauri-app.exe`, whether or not a program name is configured;
/// with no configured name these two are all that is probed.
pub proof fn law_launcher_name_is_probed(configured: Option<Seq<char>>, l: Seq<char>)
    ensures
        probe_names(configured, Some(l)).len() >= 2,
        probe_names(configured, Some(l)).last() == "tauri-app.exe"@,
        probe_names(configured, Some(l))[probe_names(configured, Some(l)).len() - 2] == l,
        probe_names(None, Some(l)) == seq![l, "tauri-app.exe"@],
        configured matches Some(n) ==> probe_names(configured, Some(l))[0] == n,
{
    assert(probe_names(None, Some(l)) =~= seq![l, "tauri-app.exe"@]);
}
} // verus!
