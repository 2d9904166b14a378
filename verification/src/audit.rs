//! Repository hygiene: which tracked files break the boundary of what
//! belongs in version control.

use vstd::prelude::*;

use crate::inventory::extension_of;
use crate::inventory::extension_text;
use crate::text::concat2;
use crate::text::contains_str;
use crate::text::contains_text;
use crate::text::join_strings;
use crate::text::join_text;
use crate::text::starts_with;
use crate::text::str_eq;
use crate::text::string_views;
use crate::text::u64_text;
use crate::text::decimal;
use crate::model::opt_view;

verus! {

/// Extensions of data and binary files that must not be tracked.
pub open spec fn forbidden_extensions() -> Seq<Seq<char>> {
    seq![
        "db"@, "ldb"@, "sqlite"@, "sqlite3"@, "pack"@, "zip"@, "tar"@, "gz"@, "7z"@, "pdf"@,
        "png"@, "jpg"@, "jpeg"@, "gif"@, "webp"@, "mp3"@, "ogg"@, "wav"@, "mp4"@, "webm"@,
    ]
}

fn forbidden_extension_list() -> (r: Vec<&'static str>)
    ensures
        r@.map_values(|s: &str| s@) == forbidden_extensions(),
{
    let r = vec![
        "db", "ldb", "sqlite", "sqlite3", "pack", "zip", "tar", "gz", "7z", "pdf", "png", "jpg",
        "jpeg", "gif", "webp", "mp3", "ogg", "wav", "mp4", "webm",
    ];
    assert(r@.map_values(|s: &str| s@) =~= forbidden_extensions());
    r
}

/// A path a survey generates: under a work root or inside a study or checkout.
pub open spec fn is_generated_path(p: Seq<char>) -> bool {
    ".work/"@.is_prefix_of(p) || ".survey-work/"@.is_prefix_of(p) || contains_text(p, "/checkout/"@)
        || contains_text(p, "/studies/"@)
}

/// What is wrong with a tracked path, judged by its name alone.
pub open spec fn path_violation_spec(p: Seq<char>) -> Option<Seq<char>> {
    if is_generated_path(p) {
        Some(p + ": generated survey/work-root path"@)
    } else if (match extension_of(p) {
        Some(e) => forbidden_extensions().contains(e),
        None => false,
    }) {
        Some(p + ": forbidden data/binary extension"@)
    } else {
        None
    }
}

/// What is wrong with a tracked path, judged by its name alone: a generated
/// survey path, or a data or binary extension.
#[verifier::loop_isolation(false)]
pub fn path_violation(relative: &str) -> (r: Option<String>)
    ensures
        opt_view(r) == path_violation_spec(relative@),
{
    if starts_with(relative, ".work/") || starts_with(relative, ".survey-work/") || contains_str(
        relative,
        "/checkout/",
    ) || contains_str(relative, "/studies/") {
        return Some(concat2(relative, ": generated survey/work-root path"));
    }
    match extension_text(relative) {
        Some(e) => {
            let forbidden = forbidden_extension_list();
            let ghost fv = forbidden@.map_values(|s: &str| s@);
            let mut i: usize = 0;
            while i < forbidden.len()
                invariant
                    fv == forbidden@.map_values(|s: &str| s@),
                    fv == forbidden_extensions(),
                    i <= forbidden.len(),
                    forall|k: int| 0 <= k < i ==> fv[k] != e@,
                decreases forbidden.len() - i,
            {
                if str_eq(forbidden[i], e.as_str()) {
                    assert(fv[i as int] == e@);
                    return Some(concat2(relative, ": forbidden data/binary extension"));
                }
                i = i + 1;
            }
            None
        },
        None => None,
    }
}

/// A tracked file larger than the bound.
pub fn size_violation(relative: &str, size: u64, max_tracked_bytes: u64) -> (r: Option<String>)
    ensures
        size > max_tracked_bytes ==> r is Some && r->0@ == relative@ + ": "@ + decimal(size as nat)
            + " bytes exceeds tracked-file limit "@ + decimal(max_tracked_bytes as nat),
        size <= max_tracked_bytes ==> r is None,
{
    if size > max_tracked_bytes {
        let mut message = concat2(relative, ": ");
        message.append(u64_text(size).as_str());
        message.append(" bytes exceeds tracked-file limit ");
        message.append(u64_text(max_tracked_bytes).as_str());
        Some(message)
    } else {
        None
    }
}

/// The local work roots that the repository must ignore.
pub fn ignore_probes() -> (r: Vec<String>)
    ensures
        string_views(r@) == seq![".work/survey-probe"@, ".survey-work/survey-probe"@],
{
    let mut r = Vec::new();
    r.push(String::from_str(".work/survey-probe"));
    r.push(String::from_str(".survey-work/survey-probe"));
    assert(string_views(r@) =~= seq![".work/survey-probe"@, ".survey-work/survey-probe"@]);
    r
}

/// The violation of a work root the repository does not ignore.
pub fn unignored_probe(probe: &str) -> (r: String)
    ensures
        r@ == probe@ + ": required local work root is not ignored"@,
{
    concat2(probe, ": required local work root is not ignored")
}

/// The verdict of an audit: it passes with no violation, and is rejected
/// with all of them otherwise.
pub fn audit_verdict(violations: &Vec<String>) -> (r: Result<(), String>)
    ensures
        r is Ok <==> violations@.len() == 0,
        r is Err ==> r->Err_0@ == "tracked-file audit rejected:\n"@ + join_text(string_views(violations@), "\n"@),
{
    if violations.len() == 0 {
        Ok(())
    } else {
        Err(concat2("tracked-file audit rejected:\n", join_strings(violations, "\n").as_str()))
    }
}

/// Whether a tracked file's size is to be measured: only when its name
/// alone breaks no rule.
pub fn needs_measuring(relative: &str) -> (r: bool)
    ensures
        r == (path_violation_spec(relative@) is None),
{
    path_violation(relative).is_none()
}

/// The size message of a file over the bound.
pub open spec fn size_message(relative: Seq<char>, size: u64, max: u64) -> Seq<char> {
    relative + ": "@ + decimal(size as nat) + " bytes exceeds tracked-file limit "@ + decimal(max as nat)
}

/// The violations of the work roots, in order: those not ignored.
pub open spec fn probe_violations(probes: Seq<(Seq<char>, bool)>) -> Seq<Seq<char>>
    decreases probes.len(),
{
    if probes.len() == 0 {
        Seq::empty()
    } else if probes.last().1 {
        probe_violations(probes.drop_last())
    } else {
        probe_violations(probes.drop_last()).push(probes.last().0 + ": required local work root is not ignored"@)
    }
}

/// The violation of one tracked file, if any: its name first; then, for a
/// measured file, its size.
pub open spec fn file_violation(file: (Seq<char>, Option<u64>), max: u64) -> Option<Seq<char>> {
    match path_violation_spec(file.0) {
        Some(v) => Some(v),
        None => match file.1 {
            Some(n) => if n > max {
                Some(size_message(file.0, n, max))
            } else {
                None
            },
            None => None,
        },
    }
}

/// The violations of the tracked files, in order.
pub open spec fn file_violations(files: Seq<(Seq<char>, Option<u64>)>, max: u64) -> Seq<Seq<char>>
    decreases files.len(),
{
    if files.len() == 0 {
        Seq::empty()
    } else {
        match file_violation(files.last(), max) {
            Some(v) => file_violations(files.drop_last(), max).push(v),
            None => file_violations(files.drop_last(), max),
        }
    }
}

/// The audit of a repository: the work roots with whether the repository
/// ignores each, then the tracked files with their sizes where measured. It
/// passes with no violation, and is rejected with all of them otherwise.
pub fn audit_report(probes: &Vec<(String, bool)>, files: &Vec<(String, Option<u64>)>, max_tracked_bytes: u64) -> (r:
    Result<(), String>)
    ensures
        ({
            let pv = probes@.map_values(|p: (String, bool)| (p.0@, p.1));
            let fv = files@.map_values(|f: (String, Option<u64>)| (f.0@, f.1));
            let all = probe_violations(pv) + file_violations(fv, max_tracked_bytes);
            &&& r is Ok <==> all.len() == 0
            &&& r matches Err(e) ==> e@ == "tracked-file audit rejected:\n"@ + join_text(all, "\n"@)
        }),
{
    let ghost pv = probes@.map_values(|p: (String, bool)| (p.0@, p.1));
    let ghost fv = files@.map_values(|f: (String, Option<u64>)| (f.0@, f.1));
    let mut violations: Vec<String> = Vec::new();
    let mut i: usize = 0;
    while i < probes.len()
        invariant
            pv == probes@.map_values(|p: (String, bool)| (p.0@, p.1)),
            i <= probes.len(),
            string_views(violations@) == probe_violations(pv.take(i as int)),
        decreases probes.len() - i,
    {
        assert(pv.take(i + 1).drop_last() =~= pv.take(i as int));
        assert(pv.take(i + 1).last() == (probes@[i as int].0@, probes@[i as int].1));
        if !probes[i].1 {
            let ghost before = string_views(violations@);
            violations.push(unignored_probe(probes[i].0.as_str()));
            assert(string_views(violations@) =~= before.push(probes@[i as int].0@ + ": required local work root is not ignored"@));
        }
        i = i + 1;
    }
    assert(pv.take(probes.len() as int) =~= pv);
    let ghost from_probes = string_views(violations@);
    let mut k: usize = 0;
    while k < files.len()
        invariant
            fv == files@.map_values(|f: (String, Option<u64>)| (f.0@, f.1)),
            k <= files.len(),
            string_views(violations@) == from_probes + file_violations(fv.take(k as int), max_tracked_bytes),
        decreases files.len() - k,
    {
        assert(fv.take(k + 1).drop_last() =~= fv.take(k as int));
        assert(fv.take(k + 1).last() == (files@[k as int].0@, files@[k as int].1));
        let ghost before = string_views(violations@);
        let relative = files[k].0.as_str();
        match path_violation(relative) {
            Some(v) => {
                violations.push(v);
                assert(string_views(violations@) =~= before.push(v@));
            },
            None => match files[k].1 {
                Some(n) => match size_violation(relative, n, max_tracked_bytes) {
                    Some(v) => {
                        violations.push(v);
                        assert(string_views(violations@) =~= before.push(v@));
                    },
                    None => {},
                },
                None => {},
            },
        }
        k = k + 1;
    }
    assert(fv.take(files.len() as int) =~= fv);
    audit_verdict(&violations)
}

/// A tracked path under `.work/` or `.survey-work/`, or one that passes
/// through a `checkout/` or `studies/` directory, is refused as a generated
/// survey path, whatever its extension; so is nothing else that is free of
/// a data or binary extension.
pub proof fn law_generated_paths_must_not_be_tracked(p: Seq<char>)
    ensures
        ".work/"@.is_prefix_of(p) ==> path_violation_spec(p) == Some(p + ": generated survey/work-root path"@),
        ".survey-work/"@.is_prefix_of(p) ==> path_violation_spec(p) == Some(
            p + ": generated survey/work-root path"@,
        ),
        contains_text(p, "/checkout/"@) ==> path_violation_spec(p) == Some(
            p + ": generated survey/work-root path"@,
        ),
        contains_text(p, "/studies/"@) ==> path_violation_spec(p) == Some(
            p + ": generated survey/work-root path"@,
        ),
        path_violation_spec(p) == Some(p + ": generated survey/work-root path"@) ==> (
        ".work/"@.is_prefix_of(p) || ".survey-work/"@.is_prefix_of(p) || contains_text(p, "/checkout/"@)
            || contains_text(p, "/studies/"@)),
{
    reveal_strlit(": generated survey/work-root path");
    reveal_strlit(": forbidden data/binary extension");
    if path_violation_spec(p) == Some(p + ": generated survey/work-root path"@) && !is_generated_path(p) {
        let a = ": generated survey/work-root path"@;
        let b = ": forbidden data/binary extension"@;
        assert((p + a)[p.len() + 3int] == a[3]);
        assert((p + b)[p.len() + 3int] == b[3]);
    }
}

/// The extensions of data and binary files.
pub open spec fn is_data_extension(e: Seq<char>) -> bool {
    ||| e == "db"@ ||| e == "ldb"@ ||| e == "sqlite"@ ||| e == "sqlite3"@ ||| e == "pack"@
    ||| e == "zip"@ ||| e == "tar"@ ||| e == "gz"@ ||| e == "7z"@ ||| e == "pdf"@
    ||| e == "png"@ ||| e == "jpg"@ ||| e == "jpeg"@ ||| e == "gif"@ ||| e == "webp"@
    ||| e == "mp3"@ ||| e == "ogg"@ ||| e == "wav"@ ||| e == "mp4"@ ||| e == "webm"@
}

/// A tracked path that is not a generated survey path is refused exactly
/// when its extension is that of a data or binary file (db, ldb, sqlite,
/// sqlite3, pack, zip, tar, gz, 7z, pdf, png, jpg, jpeg, gif, webp, mp3,
/// ogg, wav, mp4, webm), with the message naming it; a generated survey path
/// is always refused as such.
pub proof fn law_data_files_must_not_be_tracked(p: Seq<char>)
    ensures
        is_generated_path(p) ==> path_violation_spec(p) == Some(p + ": generated survey/work-root path"@),
        !is_generated_path(p) && (extension_of(p) matches Some(e) && is_data_extension(e))
            ==> path_violation_spec(p) == Some(p + ": forbidden data/binary extension"@),
        !is_generated_path(p) && !(extension_of(p) matches Some(e) && is_data_extension(e))
            ==> path_violation_spec(p) is None,
{
    let f = forbidden_extensions();
    assert forall|e: Seq<char>| is_data_extension(e) implies #[trigger] f.contains(e) by {
        if e == "db"@ { assert(f[0] == e); }
        if e == "ldb"@ { assert(f[1] == e); }
        if e == "sqlite"@ { assert(f[2] == e); }
        if e == "sqlite3"@ { assert(f[3] == e); }
        if e == "pack"@ { assert(f[4] == e); }
        if e == "zip"@ { assert(f[5] == e); }
        if e == "tar"@ { assert(f[6] == e); }
        if e == "gz"@ { assert(f[7] == e); }
        if e == "7z"@ { assert(f[8] == e); }
        if e == "pdf"@ { assert(f[9] == e); }
        if e == "png"@ { assert(f[10] == e); }
        if e == "jpg"@ { assert(f[11] == e); }
        if e == "jpeg"@ { assert(f[12] == e); }
        if e == "gif"@ { assert(f[13] == e); }
        if e == "webp"@ { assert(f[14] == e); }
        if e == "mp3"@ { assert(f[15] == e); }
        if e == "ogg"@ { assert(f[16] == e); }
        if e == "wav"@ { assert(f[17] == e); }
        if e == "mp4"@ { assert(f[18] == e); }
        if e == "webm"@ { assert(f[19] == e); }
    }
    assert forall|e: Seq<char>| #[trigger] f.contains(e) implies is_data_extension(e) by {
        let i = choose|i: int| 0 <= i < f.len() && f[i] == e;
        assert(0 <= i < 20);
    }
}

} // verus!
