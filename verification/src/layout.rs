//! The layout of the installation directory: the names that an update
//! leaves alone, the names under which files wait and are kept, and what is
//! cleared away after an update.

use crate::text::{
    append_text, ascii_lowered, chars_end_with, chars_equal, from_chars, same_text, starts_with,
    to_ascii_lower, to_chars,
};
use crate::winpath::SEPARATOR;
use vstd::prelude::*;

verus! {

/// The directory of the tools that run the update.
pub const TOOLS_DIR: &'static str = "tools";

/// What the names of the uninstaller's files begin with.
pub const UNINS_PREFIX: &'static str = "unins";

/// The directory of the sparse package.
pub const APPX_DIR: &'static str = "appx";

/// The directory of the bootstrap files.
pub const BOOTSTRAP_DIR: &'static str = "bootstrap";

/// The directory of the command line launchers.
pub const BIN_DIR: &'static str = "bin";

/// What the name of a replaced file begins with.
pub const OLD_PREFIX: &'static str = "old_";

/// What the name of a file that waits to replace another begins with.
pub const NEW_PREFIX: &'static str = "new_";

/// The library whose presence tells that the libraries of the former
/// layout lie in the root.
pub const DLL_MARKER: &'static str = "ffmpeg.dll";

/// The extension of a library.
pub const DLL_EXTENSION: &'static str = "dll";

/// The extension of an executable.
pub const EXE_SUFFIX: &'static str = ".exe";

/// What the name of the product's manifest ends with.
pub const MANIFEST_SUFFIX: &'static str = ".VisualElementsManifest.xml";

/// The name of the uninstall log.
pub const UNINSTALL_LOG: &'static str = "unins000.dat";

/// What an entry of a directory is.
#[derive(Clone, Copy, Debug, PartialEq, Eq, Structural)]
pub enum EntryKind {
    File,
    Dir,
    /// Neither a file nor a directory.
    Other,
}

/// An entry of a directory, as the caller has listed it.
#[derive(Debug)]
pub struct DirEntry {
    pub name: String,
    pub kind: EntryKind,
}

/// What an entry holds.
pub ghost struct EntryView {
    pub name: Seq<char>,
    pub kind: EntryKind,
}

impl View for DirEntry {
    type V = EntryView;

    open spec fn view(&self) -> EntryView {
        EntryView { name: self.name@, kind: self.kind }
    }
}

/// What the entries of `v` hold, in order.
pub open spec fn entry_views(v: Seq<DirEntry>) -> Seq<EntryView> {
    Seq::new(v.len(), |i: int| v[i]@)
}

/// The names of those of `entries` that `wanted` holds of, in order.
pub open spec fn names_where(entries: Seq<EntryView>, wanted: spec_fn(EntryView) -> bool) -> Seq<
    Seq<char>,
>
    decreases entries.len(),
{
    if entries.len() == 0 {
        Seq::empty()
    } else if wanted(entries.last()) {
        names_where(entries.drop_last(), wanted).push(entries.last().name)
    } else {
        names_where(entries.drop_last(), wanted)
    }
}

/// The name under which the replaced file `name` is kept.
pub fn old_name(name: &str) -> (s: String)
    ensures
        s@ == OLD_PREFIX@ + name@,
{
    append_text(OLD_PREFIX, name)
}

/// The name under which the file that is to replace `name` waits.
pub fn new_name(name: &str) -> (s: String)
    ensures
        s@ == NEW_PREFIX@ + name@,
{
    append_text(NEW_PREFIX, name)
}

/// `name` without `.exe` at its end.
pub open spec fn stem_of(name: Seq<char>) -> Seq<char> {
    if EXE_SUFFIX@.is_suffix_of(name) {
        name.take(name.len() - EXE_SUFFIX@.len())
    } else {
        name
    }
}

/// The name of the manifest of the product whose executable is `exe_name`.
pub open spec fn manifest_of(exe_name: Seq<char>) -> Seq<char> {
    stem_of(exe_name) + MANIFEST_SUFFIX@
}

/// The name of the manifest of the product whose executable is `exe_name`.
pub fn manifest_name(exe_name: &str) -> (s: String)
    ensures
        s@ == manifest_of(exe_name@),
{
    let chars = to_chars(exe_name);
    let suffix = to_chars(EXE_SUFFIX);
    let stem_len: usize = if chars_end_with(chars.as_slice(), suffix.as_slice()) {
        chars.len() - suffix.len()
    } else {
        chars.len()
    };
    let stem = vstd::slice::slice_subrange(chars.as_slice(), 0, stem_len);
    proof {
        assert(stem@ =~= stem_of(exe_name@));
    }
    let mut s = from_chars(stem);
    s.append(MANIFEST_SUFFIX);
    s
}

/// The path of the entry `name` of the directory `dir`.
pub open spec fn joined(dir: Seq<char>, name: Seq<char>) -> Seq<char> {
    if dir.len() == 0 || dir.last() == SEPARATOR {
        dir + name
    } else {
        dir + seq![SEPARATOR] + name
    }
}

/// The path of the entry `name` of the directory `dir`.
pub fn join(dir: &str, name: &str) -> (s: String)
    ensures
        s@ == joined(dir@, name@),
{
    let mut chars = to_chars(dir);
    let rest = to_chars(name);
    if chars.len() > 0 && chars[chars.len() - 1] != SEPARATOR {
        chars.push(SEPARATOR);
    }
    let mut i: usize = 0;
    let ghost base = chars@;
    while i < rest.len()
        invariant
            i <= rest@.len(),
            chars@ == base + rest@.take(i as int),
        decreases rest@.len() - i,
    {
        chars.push(rest[i]);
        proof {
            assert(base + rest@.take(i as int).push(rest@[i as int]) =~= base + rest@.take(i + 1));
        }
        i = i + 1;
    }
    proof {
        assert(rest@.take(rest@.len() as int) =~= rest@);
    }
    from_chars(chars.as_slice())
}

/// The index of the last dot of `name`, or -1 where it has none.
pub open spec fn last_dot(name: Seq<char>) -> int
    decreases name.len(),
{
    if name.len() == 0 {
        -1
    } else if name.last() == '.' {
        name.len() - 1
    } else {
        last_dot(name.drop_last())
    }
}

/// The extension of the file name `name`: what follows its last dot. A
/// name without a dot, or with its only dot at the start, has none.
pub open spec fn extension_of(name: Seq<char>) -> Option<Seq<char>> {
    let dot = last_dot(name);
    if dot <= 0 {
        None
    } else {
        Some(name.skip(dot + 1))
    }
}

/// The name is that of a library: its extension is `dll`, in upper or
/// lower case.
pub open spec fn is_dll(name: Seq<char>) -> bool {
    match extension_of(name) {
        Some(extension) => ascii_lowered(extension) == DLL_EXTENSION@,
        None => false,
    }
}

/// Whether the name is that of a library.
pub fn is_dll_name(name: &str) -> (b: bool)
    ensures
        b == is_dll(name@),
{
    let chars = to_chars(name);
    let mut dot: usize = chars.len();
    proof {
        assert(chars@.take(chars@.len() as int) =~= chars@);
    }
    while dot > 0 && chars[dot - 1] != '.'
        invariant
            dot <= chars@.len(),
            last_dot(chars@) == last_dot(chars@.take(dot as int)),
        decreases dot,
    {
        proof {
            assert(chars@.take(dot as int).drop_last() =~= chars@.take(dot - 1));
        }
        dot = dot - 1;
    }
    if dot <= 1 {
        return false;
    }
    let mut lowered: Vec<char> = Vec::new();
    let mut i: usize = dot;
    while i < chars.len()
        invariant
            dot <= i <= chars@.len(),
            lowered@ == ascii_lowered(chars@.subrange(dot as int, i as int)),
        decreases chars@.len() - i,
    {
        lowered.push(to_ascii_lower(chars[i]));
        proof {
            assert(ascii_lowered(chars@.subrange(dot as int, i as int)).push(
                crate::text::ascii_lower(chars@[i as int]),
            ) =~= ascii_lowered(chars@.subrange(dot as int, i + 1)));
        }
        i = i + 1;
    }
    proof {
        assert(chars@.subrange(dot as int, chars@.len() as int) =~= chars@.skip(dot as int));
    }
    let wanted = to_chars(DLL_EXTENSION);
    chars_equal(lowered.as_slice(), wanted.as_slice())
}

/// The legacy update leaves the entry `name` of the root alone: the
/// directory that holds the update, the tools, the uninstaller's files, the
/// sparse package and the bootstrap files.
pub open spec fn legacy_keeps(name: Seq<char>, update_folder: Seq<char>) -> bool {
    ||| name == update_folder
    ||| name == TOOLS_DIR@
    ||| UNINS_PREFIX@.is_prefix_of(name)
    ||| name == APPX_DIR@
    ||| name == BOOTSTRAP_DIR@
}

/// Whether the legacy update leaves the entry `name` of the root alone.
pub fn legacy_keeps_entry(name: &str, update_folder: &str) -> (b: bool)
    ensures
        b == legacy_keeps(name@, update_folder@),
{
    same_text(name, update_folder) || same_text(name, TOOLS_DIR) || starts_with(name, UNINS_PREFIX)
        || same_text(name, APPX_DIR) || same_text(name, BOOTSTRAP_DIR)
}

/// What the clearing after an update does with an entry of the root.
#[derive(Clone, Copy, Debug, PartialEq, Eq, Structural)]
pub enum GcAction {
    /// Leave it alone.
    Keep,
    /// Delete the file.
    DeleteFile,
    /// Remove the directory and all it holds.
    DeleteDir,
    /// Look into the directory of the launchers and delete the replaced
    /// files there.
    ScanBin,
}

/// What the clearing does with `entry`, where the executable is `exe_name`
/// and `commit` names the directory of the version to preserve. The
/// executable, its manifest, the uninstaller's files, the directory of the
/// version and the bootstrap files stay; of the rest, files and directories
/// go, and the directory of the launchers is looked into.
pub open spec fn gc_action_of(entry: EntryView, exe_name: Seq<char>, commit: Seq<char>) -> GcAction {
    if entry.name == exe_name {
        GcAction::Keep
    } else if entry.name == manifest_of(exe_name) {
        GcAction::Keep
    } else if UNINS_PREFIX@.is_prefix_of(entry.name) {
        GcAction::Keep
    } else if entry.name == commit && entry.kind == EntryKind::Dir {
        GcAction::Keep
    } else if entry.name == BOOTSTRAP_DIR@ {
        GcAction::Keep
    } else {
        match entry.kind {
            EntryKind::Dir => if entry.name == BIN_DIR@ {
                GcAction::ScanBin
            } else {
                GcAction::DeleteDir
            },
            EntryKind::File => GcAction::DeleteFile,
            EntryKind::Other => GcAction::Keep,
        }
    }
}

/// What the clearing does with `entry`.
pub fn gc_action(entry: &DirEntry, exe_name: &str, commit: &str) -> (action: GcAction)
    ensures
        action == gc_action_of(entry@, exe_name@, commit@),
{
    let name = entry.name.as_str();
    let manifest = manifest_name(exe_name);
    if same_text(name, exe_name) {
        GcAction::Keep
    } else if same_text(name, manifest.as_str()) {
        GcAction::Keep
    } else if starts_with(name, UNINS_PREFIX) {
        GcAction::Keep
    } else if same_text(name, commit) && entry.kind == EntryKind::Dir {
        GcAction::Keep
    } else if same_text(name, BOOTSTRAP_DIR) {
        GcAction::Keep
    } else {
        match entry.kind {
            EntryKind::Dir => {
                if same_text(name, BIN_DIR) {
                    GcAction::ScanBin
                } else {
                    GcAction::DeleteDir
                }
            },
            EntryKind::File => GcAction::DeleteFile,
            EntryKind::Other => GcAction::Keep,
        }
    }
}

/// The clearing deletes `entry` of the directory of the launchers: a file
/// that was replaced.
pub open spec fn is_replaced_file(entry: EntryView) -> bool {
    entry.kind == EntryKind::File && OLD_PREFIX@.is_prefix_of(entry.name)
}

/// The test that the clearing does `action` with an entry.
pub open spec fn gc_does(action: GcAction, exe_name: Seq<char>, commit: Seq<char>) -> spec_fn(
    EntryView,
) -> bool {
    |entry: EntryView| gc_action_of(entry, exe_name, commit) == action
}

/// The test that an entry is a replaced file.
pub open spec fn replaced_file() -> spec_fn(EntryView) -> bool {
    |entry: EntryView| is_replaced_file(entry)
}

/// The test that an entry is a library in the root.
pub open spec fn library_file() -> spec_fn(EntryView) -> bool {
    |entry: EntryView| entry.kind == EntryKind::File && is_dll(entry.name)
}

/// The test that an entry of the directory of the launchers takes part in
/// the rotation of names: it is neither a replaced file nor one that waits.
pub open spec fn rotates() -> spec_fn(EntryView) -> bool {
    |entry: EntryView|
        !OLD_PREFIX@.is_prefix_of(entry.name) && !NEW_PREFIX@.is_prefix_of(entry.name)
}

/// What the clearing after an update removes.
#[derive(Debug)]
pub struct Removal {
    /// The files of the root to delete, by name.
    pub files: Vec<String>,
    /// The files of the directory of the launchers to delete, by name.
    pub bin_files: Vec<String>,
    /// The directories of the root to remove with all they hold, by name.
    pub dirs: Vec<String>,
}

/// Whether the clearing looks into a directory of the launchers: whether
/// the root has one that is not kept for another reason.
pub fn scans_bin(top: &Vec<DirEntry>, exe_name: &str, commit: &str) -> (b: bool)
    ensures
        b == (names_where(entry_views(top@), gc_does(GcAction::ScanBin, exe_name@, commit@)).len()
            > 0),
{
    let mut found: bool = false;
    let mut i: usize = 0;
    while i < top.len()
        invariant
            i <= top@.len(),
            found == (names_where(
                entry_views(top@).take(i as int),
                gc_does(GcAction::ScanBin, exe_name@, commit@),
            ).len() > 0),
        decreases top@.len() - i,
    {
        proof {
            let next = entry_views(top@).take(i + 1);
            assert(next.drop_last() =~= entry_views(top@).take(i as int));
            assert(next.last() == top@[i as int]@);
        }
        if gc_action(&top[i], exe_name, commit) == GcAction::ScanBin {
            found = true;
        }
        i = i + 1;
    }
    proof {
        assert(entry_views(top@).take(i as int) =~= entry_views(top@));
    }
    found
}

/// What the clearing after an update removes, where `top` lists the root
/// and `bin` lists its directory of the launchers. `bin` is looked at only
/// where the clearing looks into that directory.
pub fn plan_removal(top: &Vec<DirEntry>, bin: &Vec<DirEntry>, exe_name: &str, commit: &str) -> (plan:
    Removal)
    ensures
        crate::text::texts(plan.files@) == names_where(
            entry_views(top@),
            gc_does(GcAction::DeleteFile, exe_name@, commit@),
        ),
        crate::text::texts(plan.dirs@) == names_where(
            entry_views(top@),
            gc_does(GcAction::DeleteDir, exe_name@, commit@),
        ),
        crate::text::texts(plan.bin_files@) == if names_where(
            entry_views(top@),
            gc_does(GcAction::ScanBin, exe_name@, commit@),
        ).len() > 0 {
            names_where(entry_views(bin@), replaced_file())
        } else {
            Seq::empty()
        },
{
    let mut files: Vec<String> = Vec::new();
    let mut dirs: Vec<String> = Vec::new();
    let mut i: usize = 0;
    while i < top.len()
        invariant
            i <= top@.len(),
            crate::text::texts(files@) == names_where(
                entry_views(top@).take(i as int),
                gc_does(GcAction::DeleteFile, exe_name@, commit@),
            ),
            crate::text::texts(dirs@) == names_where(
                entry_views(top@).take(i as int),
                gc_does(GcAction::DeleteDir, exe_name@, commit@),
            ),
        decreases top@.len() - i,
    {
        proof {
            let next = entry_views(top@).take(i + 1);
            assert(next.drop_last() =~= entry_views(top@).take(i as int));
            assert(next.last() == top@[i as int]@);
        }
        match gc_action(&top[i], exe_name, commit) {
            GcAction::DeleteFile => {
                let name = top[i].name.clone();
                proof {
                    crate::text::lemma_texts_push(files@, name);
                }
                files.push(name);
            },
            GcAction::DeleteDir => {
                let name = top[i].name.clone();
                proof {
                    crate::text::lemma_texts_push(dirs@, name);
                }
                dirs.push(name);
            },
            _ => {},
        }
        i = i + 1;
    }
    proof {
        assert(entry_views(top@).take(i as int) =~= entry_views(top@));
    }
    let bin_files = if scans_bin(top, exe_name, commit) {
        replaced_files(bin)
    } else {
        Vec::new()
    };
    Removal { files, bin_files, dirs }
}

/// The names of the replaced files among `bin`, in order.
pub fn replaced_files(bin: &Vec<DirEntry>) -> (names: Vec<String>)
    ensures
        crate::text::texts(names@) == names_where(entry_views(bin@), replaced_file()),
{
    let mut names: Vec<String> = Vec::new();
    let mut i: usize = 0;
    while i < bin.len()
        invariant
            i <= bin@.len(),
            crate::text::texts(names@) == names_where(
                entry_views(bin@).take(i as int),
                replaced_file(),
            ),
        decreases bin@.len() - i,
    {
        proof {
            let next = entry_views(bin@).take(i + 1);
            assert(next.drop_last() =~= entry_views(bin@).take(i as int));
            assert(next.last() == bin@[i as int]@);
        }
        if bin[i].kind == EntryKind::File && starts_with(bin[i].name.as_str(), OLD_PREFIX) {
            let name = bin[i].name.clone();
            proof {
                crate::text::lemma_texts_push(names@, name);
            }
            names.push(name);
        }
        i = i + 1;
    }
    proof {
        assert(entry_views(bin@).take(i as int) =~= entry_views(bin@));
    }
    names
}

/// The libraries to delete from the root after an update that keeps no
/// version directory: where the marker library is present, every file of
/// the root with the extension of a library; else none.
pub fn cleanup_dll_files(entries: &Vec<DirEntry>, marker_present: bool) -> (names: Vec<String>)
    ensures
        crate::text::texts(names@) == if marker_present {
            names_where(entry_views(entries@), library_file())
        } else {
            Seq::empty()
        },
{
    let mut names: Vec<String> = Vec::new();
    if !marker_present {
        return names;
    }
    let mut i: usize = 0;
    while i < entries.len()
        invariant
            i <= entries@.len(),
            crate::text::texts(names@) == names_where(
                entry_views(entries@).take(i as int),
                library_file(),
            ),
        decreases entries@.len() - i,
    {
        proof {
            let next = entry_views(entries@).take(i + 1);
            assert(next.drop_last() =~= entry_views(entries@).take(i as int));
            assert(next.last() == entries@[i as int]@);
        }
        if entries[i].kind == EntryKind::File && is_dll_name(entries[i].name.as_str()) {
            let name = entries[i].name.clone();
            proof {
                crate::text::lemma_texts_push(names@, name);
            }
            names.push(name);
        }
        i = i + 1;
    }
    proof {
        assert(entry_views(entries@).take(i as int) =~= entry_views(entries@));
    }
    names
}

/// The names of the entries of the directory of the launchers that take
/// part in the rotation of names, in order.
pub fn rotating_names(bin: &Vec<DirEntry>) -> (names: Vec<String>)
    ensures
        crate::text::texts(names@) == names_where(entry_views(bin@), rotates()),
{
    let mut names: Vec<String> = Vec::new();
    let mut i: usize = 0;
    while i < bin.len()
        invariant
            i <= bin@.len(),
            crate::text::texts(names@) == names_where(entry_views(bin@).take(i as int), rotates()),
        decreases bin@.len() - i,
    {
        proof {
            let next = entry_views(bin@).take(i + 1);
            assert(next.drop_last() =~= entry_views(bin@).take(i as int));
            assert(next.last() == bin@[i as int]@);
        }
        let name = bin[i].name.as_str();
        if !starts_with(name, OLD_PREFIX) && !starts_with(name, NEW_PREFIX) {
            let name = bin[i].name.clone();
            proof {
                crate::text::lemma_texts_push(names@, name);
            }
            names.push(name);
        }
        i = i + 1;
    }
    proof {
        assert(entry_views(bin@).take(i as int) =~= entry_views(bin@));
    }
    names
}

} // verus!
