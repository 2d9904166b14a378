//! Safety rules on study identifiers, work roots and paths inside them.

use vstd::prelude::*;

use crate::shape::is_ascii_alphanumeric;
use crate::text::concat2;
use crate::text::concat3;
use crate::text::debug_quoted;
use crate::text::debug_text;

verus! {

/// A character allowed in a study id: an ASCII letter or digit, `-` or `_`.
pub open spec fn is_study_char(c: char) -> bool {
    is_ascii_alphanumeric(c) || c == '-' || c == '_'
}

/// A study id: one to eighty allowed characters.
pub open spec fn valid_study_id(s: Seq<char>) -> bool {
    0 < s.len() <= 80 && forall|i: int| 0 <= i < s.len() ==> is_study_char(#[trigger] s[i])
}

/// Accepts a study id made of one to eighty ASCII letters, digits, `-` or `_`.
pub fn validate_study_id(value: &str) -> (r: Result<(), String>)
    ensures
        r is Ok <==> valid_study_id(value@),
        r is Err ==> r->Err_0@ == "study id "@ + debug_text(value@)
            + " must contain only ASCII letters, digits, '-' or '_'"@,
{
    let n = value.unicode_len();
    let mut valid = n > 0 && n <= 80;
    let mut i: usize = 0;
    while valid && i < n
        invariant
            n == value@.len(),
            i <= n,
            valid ==> 0 < n <= 80,
            valid ==> forall|k: int| 0 <= k < i ==> is_study_char(#[trigger] value@[k]),
            !valid ==> !valid_study_id(value@),
        decreases n - i,
    {
        let c = value.get_char(i);
        let code = c as u32;
        let alnum = (48 <= code && code <= 57) || (65 <= code && code <= 90) || (97 <= code && code <= 122);
        if !(alnum || c == '-' || c == '_') {
            assert(!is_study_char(value@[i as int]));
            valid = false;
        }
        i = i + 1;
    }
    if valid {
        Ok(())
    } else {
        let mut message = concat2("study id ", debug_quoted(value).as_str());
        message.append(" must contain only ASCII letters, digits, '-' or '_'");
        Err(message)
    }
}

/// A work root must be a dedicated directory: neither empty, nor `/`, nor
/// the home directory.
pub fn check_work_root(is_empty_or_root: bool, is_home: bool) -> (r: Result<(), String>)
    ensures
        r is Ok <==> !is_empty_or_root && !is_home,
        is_empty_or_root ==> r->Err_0@ == "work root must be a dedicated directory, not '/'"@,
        !is_empty_or_root && is_home ==> r->Err_0@ == "work root must not be the home directory"@,
{
    if is_empty_or_root {
        return Err(String::from_str("work root must be a dedicated directory, not '/'"));
    }
    if is_home {
        return Err(String::from_str("work root must not be the home directory"));
    }
    Ok(())
}

/// A resolved work root must not be the root of a source repository (a
/// directory with both `.git` and `Cargo.toml`).
pub fn check_resolved_work_root(has_git: bool, has_cargo_manifest: bool) -> (r: Result<(), String>)
    ensures
        r is Ok <==> !(has_git && has_cargo_manifest),
        r is Err ==> r->Err_0@ == "work root must not be a source repository root"@,
{
    if has_git && has_cargo_manifest {
        return Err(String::from_str("work root must not be a source repository root"));
    }
    Ok(())
}

/// The kind of a path component.
#[derive(Clone, Copy, Debug, PartialEq, Eq)]
pub enum ComponentKind {
    Normal,
    CurDir,
    ParentDir,
    RootDir,
    Prefix,
}

/// A component that leaves the directory it is joined to.
pub open spec fn escapes(k: ComponentKind) -> bool {
    k is ParentDir || k is RootDir || k is Prefix
}

/// A relative path stays inside its root: it is not absolute and has no
/// parent, root or prefix component.
pub fn check_containment(relative: &str, is_absolute: bool, components: &Vec<ComponentKind>) -> (r: Result<(), String>)
    ensures
        r is Ok <==> !is_absolute && forall|i: int| 0 <= i < components@.len() ==> !escapes(#[trigger] components@[i]),
        r is Err ==> r->Err_0@ == "path "@ + relative@ + " escapes its work root"@,
{
    let mut bad = is_absolute;
    let mut i: usize = 0;
    while !bad && i < components.len()
        invariant
            i <= components.len(),
            !bad ==> !is_absolute && forall|k: int| 0 <= k < i ==> !escapes(#[trigger] components@[k]),
            bad ==> is_absolute || exists|k: int| 0 <= k < components@.len() && escapes(#[trigger] components@[k]),
        decreases components.len() - i,
    {
        match components[i] {
            ComponentKind::ParentDir | ComponentKind::RootDir | ComponentKind::Prefix => {
                assert(escapes(components@[i as int]));
                bad = true;
            },
            _ => {},
        }
        i = i + 1;
    }
    if bad {
        return Err(concat3("path ", relative, " escapes its work root"));
    }
    Ok(())
}

/// A path must not cross a symbolic link on its way from the root.
pub fn check_crossing(relative: &str, cursor: &str, is_symlink: bool) -> (r: Result<(), String>)
    ensures
        r is Ok <==> !is_symlink,
        r is Err ==> r->Err_0@ == "path "@ + relative@ + " crosses symlink "@ + cursor@
            + ", refusing work-root escape"@,
{
    if is_symlink {
        let mut message = concat3("path ", relative, " crosses symlink ");
        message.append(cursor);
        message.append(", refusing work-root escape");
        return Err(message);
    }
    Ok(())
}

/// The sum of the sizes, saturating at `u64::MAX`.
pub open spec fn saturating_total(sizes: Seq<u64>) -> nat
    decreases sizes.len(),
{
    if sizes.len() == 0 {
        0
    } else {
        let t: nat = saturating_total(sizes.drop_last()) + sizes.last() as nat;
        if t > u64::MAX {
            u64::MAX as nat
        } else {
            t
        }
    }
}

/// The total of the file sizes under a directory, saturating.
pub fn total_bytes(sizes: &Vec<u64>) -> (r: u64)
    ensures
        r == saturating_total(sizes@),
{
    let mut total: u64 = 0;
    let mut i: usize = 0;
    while i < sizes.len()
        invariant
            i <= sizes.len(),
            total == saturating_total(sizes@.take(i as int)),
        decreases sizes.len() - i,
    {
        assert(sizes@.take(i + 1).drop_last() =~= sizes@.take(i as int));
        total = total.saturating_add(sizes[i]);
        i = i + 1;
    }
    assert(sizes@.take(sizes.len() as int) =~= sizes@);
    total
}

/// Only the parent (`..`), root and prefix components leave the root a
/// path is joined to: a relative path of normal and `.` components stays
/// inside it.
pub proof fn law_only_upward_components_escape()
    ensures
        escapes(ComponentKind::ParentDir),
        escapes(ComponentKind::RootDir),
        escapes(ComponentKind::Prefix),
        !escapes(ComponentKind::Normal),
        !escapes(ComponentKind::CurDir),
{
}

/// The sizes added up.
pub open spec fn plain_total(sizes: Seq<u64>) -> nat
    decreases sizes.len(),
{
    if sizes.len() == 0 {
        0
    } else {
        plain_total(sizes.drop_last()) + sizes.last() as nat
    }
}

/// The saturating total of sizes is their sum, or the largest `u64` where
/// the sum exceeds it: it never wraps.
pub proof fn law_total_saturates_instead_of_wrapping(sizes: Seq<u64>)
    ensures
        plain_total(sizes) <= u64::MAX ==> saturating_total(sizes) == plain_total(sizes),
        plain_total(sizes) > u64::MAX ==> saturating_total(sizes) == u64::MAX as nat,
    decreases sizes.len(),
{
    if sizes.len() > 0 {
        law_total_saturates_instead_of_wrapping(sizes.drop_last());
    }
}

/// A study id is accepted exactly when it has one to eighty characters,
/// each an ASCII letter (`a`..`z`, `A`..`Z`) or digit (`0`..`9`), `-` or
/// `_`; so no id holds a path separator, a dot or a space.
pub proof fn law_study_ids_are_short_plain_names(s: Seq<char>)
    ensures
        valid_study_id(s) <==> (1 <= s.len() <= 80 && forall|i: int|
            0 <= i < s.len() ==> {
                let n = (#[trigger] s[i]) as u32;
                (97 <= n <= 122) || (65 <= n <= 90) || (48 <= n <= 57) || s[i] == '-' || s[i] == '_'
            }),
{
}

} // verus!
