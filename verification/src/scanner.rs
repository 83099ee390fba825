use vstd::prelude::*;
use vstd::string::StringSliceAdditionalSpecFns;

verus! {

/// The name begins with a full stop.
pub open spec fn starts_with_dot(name: Seq<u8>) -> bool {
    name.len() > 0 && name[0] == 0x2E
}

/// Whether two byte strings are the same.
fn same_bytes(a: &[u8], b: &[u8]) -> (same: bool)
    ensures
        same == (a@ == b@),
{
    if a.len() != b.len() {
        return false;
    }
    let mut i: usize = 0;
    while i < a.len()
        invariant
            i <= a.len(),
            a.len() == b.len(),
            a@.take(i as int) == b@.take(i as int),
        decreases a.len() - i,
    {
        if a[i] != b[i] {
            return false;
        }
        assert(a@.take(i + 1) =~= a@.take(i as int).push(a@[i as int]));
        assert(b@.take(i + 1) =~= b@.take(i as int).push(b@[i as int]));
        i = i + 1;
    }
    assert(a@.take(a.len() as int) =~= a@);
    assert(b@.take(b.len() as int) =~= b@);
    true
}

/// The lower-case form of an ASCII letter; any other byte as it is.
pub open spec fn lower(b: u8) -> u8 {
    if 0x41 <= b <= 0x5A {
        (b + 32) as u8
    } else {
        b
    }
}

/// Two byte strings are the same but for the case of ASCII letters.
pub open spec fn same_but_for_case(a: Seq<u8>, b: Seq<u8>) -> bool {
    a.len() == b.len() && forall|i: int| 0 <= i < a.len() ==> lower(#[trigger] a[i]) == lower(b[i])
}

/// The lower-case form of an ASCII letter; any other byte as it is.
fn to_lower(b: u8) -> (l: u8)
    ensures
        l == lower(b),
{
    if 0x41 <= b && b <= 0x5A {
        b + 32
    } else {
        b
    }
}

/// Whether two byte strings are the same but for the case of ASCII letters.
fn matches_ignoring_case(a: &[u8], b: &[u8]) -> (same: bool)
    ensures
        same == same_but_for_case(a@, b@),
{
    if a.len() != b.len() {
        return false;
    }
    let mut i: usize = 0;
    while i < a.len()
        invariant
            i <= a.len(),
            a.len() == b.len(),
            forall|j: int| 0 <= j < i ==> lower(#[trigger] a@[j]) == lower(b@[j]),
        decreases a.len() - i,
    {
        if to_lower(a[i]) != to_lower(b[i]) {
            return false;
        }
        i = i + 1;
    }
    true
}

/// The name is one of the folders that a scan passes over.
pub open spec fn is_skipped_folder(name: Seq<u8>) -> bool {
    ||| name == "node_modules".spec_bytes()
    ||| name == "target".spec_bytes()
    ||| name == "venv".spec_bytes()
    ||| name == "bin".spec_bytes()
    ||| name == "obj".spec_bytes()
    ||| name == "Library".spec_bytes()
    ||| name == "Applications".spec_bytes()
    ||| name == "Windows".spec_bytes()
    ||| name == "Program Files".spec_bytes()
    ||| name == ".git".spec_bytes()
    ||| name == ".vscode".spec_bytes()
    ||| name == ".idea".spec_bytes()
}

/// The extension, whatever the case of its letters, is one that a scan keeps.
pub open spec fn is_kept_extension(ext: Seq<u8>) -> bool {
    ||| same_but_for_case(ext, "pdf".spec_bytes())
    ||| same_but_for_case(ext, "docx".spec_bytes())
    ||| same_but_for_case(ext, "doc".spec_bytes())
    ||| same_but_for_case(ext, "txt".spec_bytes())
    ||| same_but_for_case(ext, "md".spec_bytes())
    ||| same_but_for_case(ext, "png".spec_bytes())
    ||| same_but_for_case(ext, "jpg".spec_bytes())
    ||| same_but_for_case(ext, "jpeg".spec_bytes())
    ||| same_but_for_case(ext, "webp".spec_bytes())
    ||| same_but_for_case(ext, "xlsx".spec_bytes())
    ||| same_but_for_case(ext, "csv".spec_bytes())
    ||| same_but_for_case(ext, "pptx".spec_bytes())
    ||| same_but_for_case(ext, "rs".spec_bytes())
    ||| same_but_for_case(ext, "py".spec_bytes())
    ||| same_but_for_case(ext, "js".spec_bytes())
    ||| same_but_for_case(ext, "html".spec_bytes())
    ||| same_but_for_case(ext, "css".spec_bytes())
}

/// Whether a directory entry of this name is hidden: its name is readable
/// text and begins with a full stop.
pub fn is_hidden(name: Option<&str>) -> (hidden: bool)
    ensures
        hidden == match name {
            Some(text) => starts_with_dot(text.spec_bytes()),
            None => false,
        },
{
    match name {
        Some(text) => {
            let bytes = text.as_bytes();
            bytes.len() > 0 && bytes[0] == 0x2E
        },
        None => false,
    }
}

/// Whether a scan passes over a directory entry: a hidden one, or a directory
/// with the name of a folder that holds no files of interest.
pub fn is_ignored(name: &str, is_dir: bool) -> (ignored: bool)
    ensures
        ignored == (starts_with_dot(name.spec_bytes()) || (is_dir && is_skipped_folder(
            name.spec_bytes(),
        ))),
{
    let bytes = name.as_bytes();
    if bytes.len() > 0 && bytes[0] == 0x2E {
        return true;
    }
    is_dir && (same_bytes(bytes, "node_modules".as_bytes()) || same_bytes(
        bytes,
        "target".as_bytes(),
    ) || same_bytes(bytes, "venv".as_bytes()) || same_bytes(bytes, "bin".as_bytes())
        || same_bytes(bytes, "obj".as_bytes()) || same_bytes(bytes, "Library".as_bytes())
        || same_bytes(bytes, "Applications".as_bytes()) || same_bytes(bytes, "Windows".as_bytes())
        || same_bytes(bytes, "Program Files".as_bytes()) || same_bytes(bytes, ".git".as_bytes())
        || same_bytes(bytes, ".vscode".as_bytes()) || same_bytes(bytes, ".idea".as_bytes()))
}

/// Whether a scan keeps a directory entry: a file whose extension is one of
/// the kept ones, in any case of letters.
pub fn is_wanted_file(is_file: bool, extension: Option<&str>) -> (wanted: bool)
    ensures
        wanted == (is_file && match extension {
            Some(ext) => is_kept_extension(ext.spec_bytes()),
            None => false,
        }),
{
    if !is_file {
        return false;
    }
    match extension {
        None => false,
        Some(ext) => {
            let e = ext.as_bytes();
            matches_ignoring_case(e, "pdf".as_bytes()) || matches_ignoring_case(e, "docx".as_bytes())
                || matches_ignoring_case(e, "doc".as_bytes()) || matches_ignoring_case(
                e,
                "txt".as_bytes(),
            ) || matches_ignoring_case(e, "md".as_bytes()) || matches_ignoring_case(
                e,
                "png".as_bytes(),
            ) || matches_ignoring_case(e, "jpg".as_bytes()) || matches_ignoring_case(
                e,
                "jpeg".as_bytes(),
            ) || matches_ignoring_case(e, "webp".as_bytes()) || matches_ignoring_case(
                e,
                "xlsx".as_bytes(),
            ) || matches_ignoring_case(e, "csv".as_bytes()) || matches_ignoring_case(
                e,
                "pptx".as_bytes(),
            ) || matches_ignoring_case(e, "rs".as_bytes()) || matches_ignoring_case(
                e,
                "py".as_bytes(),
            ) || matches_ignoring_case(e, "js".as_bytes()) || matches_ignoring_case(
                e,
                "html".as_bytes(),
            ) || matches_ignoring_case(e, "css".as_bytes())
        },
    }
}

} // verus!
