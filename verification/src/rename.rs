//! The new name of a renamed program file: the program name with the configured prefix
//! and suffix, the file's extension, and a copy number when the name is taken.
use vstd::prelude::*;

use crate::chars::{chars_eq, decimal, digit_char, from_chars, push_all, push_decimal, to_chars};
use crate::settings::{Extra, lookup};

verus! {

/// The value of a setting, or the empty text when it is missing.
pub open spec fn setting_or_empty(extra: Seq<(Seq<char>, Seq<char>)>, key: Seq<char>) -> Seq<char> {
    match lookup(extra, key) {
        Some(v) => v,
        None => seq![],
    }
}

/// The base name of the renamed file: the `prefix` setting, the program name, the
/// `suffix` setting.
pub open spec fn prefixed(name: Seq<char>, extra: Seq<(Seq<char>, Seq<char>)>) -> Seq<char> {
    setting_or_empty(extra, "prefix"@) + name + setting_or_empty(extra, "suffix"@)
}

/// Whether the `overwrite` setting is `true`.
pub open spec fn overwrite_on(extra: Seq<(Seq<char>, Seq<char>)>) -> bool {
    lookup(extra, "overwrite"@) == Some("true"@)
}

/// The file name for a base name, an extension (empty for none) and a copy number:
/// `name.ext`, or `name (n).ext` for copy `n > 0`.
pub open spec fn candidate_name(name: Seq<char>, ext: Seq<char>, copy: nat) -> Seq<char> {
    let numbered = if copy == 0 {
        name
    } else {
        name + seq![' ', '('] + decimal(copy) + seq![')']
    };
    if ext.len() == 0 {
        numbered
    } else {
        numbered + seq!['.'] + ext
    }
}

/// The base name of the renamed file (see [`prefixed`]).
pub fn prefixed_name(name: &str, extra: &Extra) -> (r: String)
    ensures
        r@ == prefixed(name@, extra@),
{
    let mut out: Vec<char> = Vec::new();
    match extra.get("prefix") {
        Some(p) => push_all(&mut out, &to_chars(p.as_str())),
        None => {},
    }
    push_all(&mut out, &to_chars(name));
    match extra.get("suffix") {
        Some(s) => push_all(&mut out, &to_chars(s.as_str())),
        None => {},
    }
    assert(out@ =~= prefixed(name@, extra@));
    from_chars(&out)
}

/// Whether the `overwrite` setting is `true` (see [`overwrite_on`]).
pub fn overwrite_enabled(extra: &Extra) -> (r: bool)
    ensures
        r == overwrite_on(extra@),
{
    match extra.get("overwrite") {
        Some(v) => chars_eq(&to_chars(v.as_str()), &to_chars("true")),
        None => false,
    }
}

/// The file name to try for copy number `copy` (see [`candidate_name`]).
pub fn candidate_file_name(name: &str, ext: &str, copy: u32) -> (r: String)
    ensures
        r@ == candidate_name(name@, ext@, copy as nat),
{
    let mut out: Vec<char> = Vec::new();
    push_all(&mut out, &to_chars(name));
    if copy > 0 {
        out.push(' ');
        out.push('(');
        push_decimal(&mut out, copy);
        out.push(')');
    }
    let e = to_chars(ext);
    if e.len() > 0 {
        out.push('.');
        push_all(&mut out, &e);
    }
    assert(out@ =~= candidate_name(name@, ext@, copy as nat));
    from_chars(&out)
}

/// The next step of the search for a free file name, after looking at the candidate
/// with copy number `copy` (see [`candidate_name`]).
#[derive(Clone, Copy, Debug, PartialEq, Eq, Structural)]
pub enum DedupStep {
    /// No file has the name: rename to it.
    Take,
    /// The file already has the name: nothing to do.
    AlreadyNamed,
    /// Another file has the name: look at the next copy number.
    TryNext(u32),
}

/// The next step of the search for a free name: take a candidate no file has; stop
/// when the candidate is the file's own path; otherwise go on with the next copy
/// number.
pub open spec fn next_dedup_step(copy: u32, exists: bool, is_source: bool) -> DedupStep {
    if !exists {
        DedupStep::Take
    } else if is_source {
        DedupStep::AlreadyNamed
    } else {
        DedupStep::TryNext((copy + 1) as u32)
    }
}

/// The next step of the search for a free name (see [`next_dedup_step`]).
pub fn dedup_step(copy: u32, exists: bool, is_source: bool) -> (r: DedupStep)
    requires
        exists && !is_source ==> copy < u32::MAX,
    ensures
        r == next_dedup_step(copy, exists, is_source),
{
    if !exists {
        DedupStep::Take
    } else if is_source {
        DedupStep::AlreadyNamed
    } else {
        DedupStep::TryNext(copy + 1)
    }
}

/// What renaming with `overwrite` does when the target name is taken.
#[derive(Clone, Copy, Debug, PartialEq, Eq, Structural)]
pub enum OverwriteStep {
    /// The file already has the name.
    NotNeeded,
    /// The file with the target name is newer: it stays, and so does the source.
    NewerExists,
    /// The file with the target name is older: it is deleted, then the source renamed.
    Replace,
    /// No file has the target name: rename.
    Rename,
}

/// What renaming with `overwrite` does: nothing when the file already has the name;
/// otherwise the newer of the two files is kept under the name.
pub open spec fn overwrite_outcome(same_path: bool, target_exists: bool, target_newer: bool) -> OverwriteStep {
    if same_path {
        OverwriteStep::NotNeeded
    } else if target_exists && target_newer {
        OverwriteStep::NewerExists
    } else if target_exists {
        OverwriteStep::Replace
    } else {
        OverwriteStep::Rename
    }
}

/// What renaming with `overwrite` does (see [`overwrite_outcome`]).
pub fn overwrite_step(same_path: bool, target_exists: bool, target_newer: bool) -> (r: OverwriteStep)
    ensures
        r == overwrite_outcome(same_path, target_exists, target_newer),
{
    if same_path {
        OverwriteStep::NotNeeded
    } else if target_exists && target_newer {
        OverwriteStep::NewerExists
    } else if target_exists {
        OverwriteStep::Replace
    } else {
        OverwriteStep::Rename
    }
}


proof fn lemma_digit_char_injective(a: nat, b: nat)
    requires
        a < 10,
        b < 10,
        digit_char(a) == digit_char(b),
    ensures
        a == b,
{
}

proof fn lemma_decimal_len(n: nat)
    ensures
        decimal(n).len() >= 1,
        n >= 10 ==> decimal(n).len() >= 2,
    decreases n,
{
    if n >= 10 {
        lemma_decimal_len(n / 10);
    }
}

/// Different numbers are written differently.
pub proof fn lemma_decimal_injective(a: nat, b: nat)
    requires
        decimal(a) == decimal(b),
    ensures
        a == b,
    decreases a,
{
    lemma_decimal_len(a);
    lemma_decimal_len(b);
    if a < 10 && b < 10 {
        assert(decimal(a)[0] == digit_char(a));
        assert(decimal(b)[0] == digit_char(b));
        lemma_digit_char_injective(a, b);
    } else if a >= 10 && b >= 10 {
        assert(decimal(a).last() == digit_char(a % 10));
        assert(decimal(b).last() == digit_char(b % 10));
        lemma_digit_char_injective(a % 10, b % 10);
        assert(decimal(a).drop_last() =~= decimal(a / 10));
        assert(decimal(b).drop_last() =~= decimal(b / 10));
        lemma_decimal_injective(a / 10, b / 10);
    }
}

/// Different copy numbers give different file names, so the search for a free name
/// tries a new name at each step.
pub proof fn lemma_candidates_distinct(name: Seq<char>, ext: Seq<char>, a: nat, b: nat)
    requires
        candidate_name(name, ext, a) == candidate_name(name, ext, b),
    ensures
        a == b,
{
    let na = if a == 0 { name } else { name + seq![' ', '('] + decimal(a) + seq![')'] };
    let nb = if b == 0 { name } else { name + seq![' ', '('] + decimal(b) + seq![')'] };
    lemma_decimal_len(a);
    lemma_decimal_len(b);
    if ext.len() > 0 {
        let ca = candidate_name(name, ext, a);
        assert(ca =~= na + (seq!['.'] + ext));
        assert(candidate_name(name, ext, b) =~= nb + (seq!['.'] + ext));
        assert(na.len() == nb.len());
        assert(na =~= ca.subrange(0, na.len() as int));
        assert(nb =~= ca.subrange(0, nb.len() as int));
    }
    assert(na == nb);
    if a > 0 && b > 0 {
        assert(na.len() == nb.len());
        let da = na.subrange(name.len() + 2int, na.len() - 1);
        assert(da =~= decimal(a));
        assert(nb.subrange(name.len() + 2int, nb.len() - 1) =~= decimal(b));
        lemma_decimal_injective(a, b);
    } else if a > 0 {
        assert(na.len() > nb.len());
    } else if b > 0 {
        assert(nb.len() > na.len());
    }
}
} // verus!
