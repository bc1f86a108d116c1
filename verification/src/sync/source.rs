//! Checks on source files that are about to be read.

use vstd::prelude::*;
use vstd::string::*;

use crate::paths::{components, is_under, root_component, PathName, DOT};
use crate::sync::walker::MAX_FILE_BYTES;
use crate::text::copy_text;

verus! {

/// Whether a component is an ordinary name.
pub open spec fn is_ordinary(part: Seq<u8>) -> bool {
    part != root_component() && part != seq![DOT] && part != seq![DOT, DOT]
}

/// Whether a manifest path names a file below the checkout root: it is not
/// empty, not absolute, and has no component that means another directory.
pub open spec fn is_manifest_path(relative: Seq<char>) -> bool {
    let parts = components(vstd::utf8::encode_utf8(relative));
    relative.len() > 0 && forall|i: int| 0 <= i < parts.len() ==> is_ordinary(#[trigger] parts[i])
}

fn ordinary(path: &PathName, i: usize) -> (is: bool)
    requires
        i < path@.len(),
    ensures
        is == is_ordinary(path@[i as int]),
{
    let part = &path.parts[i];
    assert(path@[i as int] == part@);
    let dot = part.len() == 1 && part[0] == DOT;
    let up = part.len() == 2 && part[0] == DOT && part[1] == DOT;
    assert(dot ==> part@ =~= seq![DOT]);
    assert(up ==> part@ =~= seq![DOT, DOT]);
    !path.is_root_part(i) && !dot && !up
}

/// The path below the checkout root that a manifest path names.
pub fn manifest_path(relative: &str) -> (path: Result<PathName, String>)
    ensures
        match path {
            Ok(p) => is_manifest_path(relative@) && p@ == components(
                vstd::utf8::encode_utf8(relative@),
            ),
            Err(message) => !is_manifest_path(relative@) && message@ == "invalid checkout path: "@
                + relative@,
        },
{
    let path = PathName::from_text(relative);
    let mut valid = !relative.is_empty();
    let mut i: usize = 0;
    while i < path.len()
        invariant
            i <= path@.len(),
            valid == (relative@.len() > 0 && forall|k: int|
                0 <= k < i ==> is_ordinary(#[trigger] path@[k])),
        decreases path@.len() - i,
    {
        if !ordinary(&path, i) {
            valid = false;
        }
        i = i + 1;
    }
    if valid {
        Ok(path)
    } else {
        let mut message = copy_text("invalid checkout path: ");
        message.push_str(relative);
        Err(message)
    }
}

/// Why a resolved file may not be read, where it may not: links can lead out of
/// the checkout.
pub open spec fn target_fault(
    root: Seq<Seq<u8>>,
    relative: Seq<char>,
    target: Seq<Seq<u8>>,
    is_file: bool,
) -> Option<Seq<char>> {
    if !is_under(target, root) {
        Some("checkout path escapes its root: "@ + relative)
    } else if !is_file {
        Some("checkout path is not a file: "@ + relative)
    } else {
        None
    }
}

/// Checks the canonical path that a manifest path resolves to.
pub fn check_target(root: &PathName, relative: &str, target: &PathName, is_file: bool) -> (checked:
    Result<(), String>)
    ensures
        match checked {
            Ok(()) => target_fault(root@, relative@, target@, is_file) is None,
            Err(message) => target_fault(root@, relative@, target@, is_file) == Some(message@),
        },
{
    if !target.under(root) {
        let mut message = copy_text("checkout path escapes its root: ");
        message.push_str(relative);
        return Err(message);
    }
    if !is_file {
        let mut message = copy_text("checkout path is not a file: ");
        message.push_str(relative);
        return Err(message);
    }
    Ok(())
}

/// Why bytes that were read may not be used, where they may not: the file grew
/// beyond the limit, or its path led elsewhere when it was resolved again.
pub open spec fn read_fault(
    relative: Seq<char>,
    size: nat,
    before: Seq<Seq<u8>>,
    after: Seq<Seq<u8>>,
) -> Option<Seq<char>> {
    if size > MAX_FILE_BYTES {
        Some(relative + " exceeded the file size limit during sync"@)
    } else if before != after {
        Some(relative + " changed its target during sync"@)
    } else {
        None
    }
}

/// Checks bytes that were read.
pub fn check_read(relative: &str, size: usize, before: &PathName, after: &PathName) -> (checked:
    Result<(), String>)
    ensures
        match checked {
            Ok(()) => read_fault(relative@, size as nat, before@, after@) is None,
            Err(message) => read_fault(relative@, size as nat, before@, after@) == Some(message@),
        },
{
    if size as u64 > MAX_FILE_BYTES {
        let mut message = copy_text(relative);
        message.push_str(" exceeded the file size limit during sync");
        return Err(message);
    }
    if !before.same(after) {
        let mut message = copy_text(relative);
        message.push_str(" changed its target during sync");
        return Err(message);
    }
    Ok(())
}

/// Which names a manifest may have: those of at least one character whose parts are
/// none of the root, the directory itself and the one above it.
pub proof fn law_what_a_manifest_may_name(relative: Seq<char>)
    ensures
        is_manifest_path(relative) <==> relative.len() > 0 && (forall|i: int|
            #![trigger components(vstd::utf8::encode_utf8(relative))[i]]
            0 <= i < components(vstd::utf8::encode_utf8(relative)).len() ==> {
                let part = components(vstd::utf8::encode_utf8(relative))[i];
                part != seq![47u8] && part != seq![46u8] && part != seq![46u8, 46u8]
            }),
{
    let parts = components(vstd::utf8::encode_utf8(relative));
    assert forall|i: int| 0 <= i < parts.len() implies (is_ordinary(#[trigger] parts[i]) <==> (
    parts[i] != seq![47u8] && parts[i] != seq![46u8] && parts[i] != seq![46u8, 46u8])) by {
    }
}

/// A file is read for a manifest path exactly where its target is a file below the
/// root, has no more than 16 MiB, and is the same after as before.
pub proof fn law_what_may_be_read(
    root: Seq<Seq<u8>>,
    relative: Seq<char>,
    target: Seq<Seq<u8>>,
    is_file: bool,
    size: nat,
    after: Seq<Seq<u8>>,
)
    ensures
        target_fault(root, relative, target, is_file) is None <==> root.is_prefix_of(target)
            && is_file,
        !root.is_prefix_of(target) ==> target_fault(root, relative, target, is_file) == Some(
            "checkout path escapes its root: "@ + relative,
        ),
        root.is_prefix_of(target) && !is_file ==> target_fault(root, relative, target, is_file)
            == Some("checkout path is not a file: "@ + relative),
        read_fault(relative, size, target, after) is None <==> size <= 16777216 && target == after,
        size > 16777216 ==> read_fault(relative, size, target, after) == Some(
            relative + " exceeded the file size limit during sync"@,
        ),
        size <= 16777216 && target != after ==> read_fault(relative, size, target, after) == Some(
            relative + " changed its target during sync"@,
        ),
{
}

/// A path is checked before and after it is read: it must be one that a manifest may
/// name, a file below the root, small enough, and the same all the time.
pub proof fn law_paths_are_checked_around_a_read(
    relative: &str,
    path: Result<PathName, String>,
    root: &PathName,
    target: &PathName,
    is_file: bool,
    checked: Result<(), String>,
    size: usize,
    after: &PathName,
    read: Result<(), String>,
)
    requires
        call_ensures(manifest_path, (relative,), path),
        call_ensures(check_target, (root, relative, target, is_file), checked),
        call_ensures(check_read, (relative, size, target, after), read),
    ensures
        path is Ok <==> is_manifest_path(relative@),
        path matches Ok(p) ==> p@ == components(vstd::utf8::encode_utf8(relative@)),
        path matches Err(message) ==> message@ == "invalid checkout path: "@ + relative@,
        checked is Ok <==> root@.is_prefix_of(target@) && is_file,
        read is Ok <==> size <= 16777216 && target@ == after@,
{
    law_what_may_be_read(root@, relative@, target@, is_file, size as nat, after@);
}

} // verus!
