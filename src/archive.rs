//! Archive extraction decisions: format detection, the choice of decoder,
//! the strip-components rules and the plan that strips a wrapper directory,
//! and the inspection that decides whether an archive has one.
use std::io::Read;
use vstd::prelude::*;

use crate::path::{components, path_components};
use crate::request::str_eq;

verus! {

/// An archive format, or `Auto` to infer it from the file extension.
#[derive(PartialEq, Eq, Structural, Clone, Copy, Debug)]
pub enum TarFormat {
    Auto,
    TarGz,
    TarXz,
    TarBz2,
    TarZst,
    Zip,
    SevenZip,
    Raw,
}

impl Default for TarFormat {
    fn default() -> (r: Self)
        ensures
            r == TarFormat::Auto,
    {
        TarFormat::Auto
    }
}

/// The fixed extension table.
pub open spec fn format_of_ext(ext: Seq<char>) -> TarFormat {
    if ext == "gz"@ || ext == "tgz"@ {
        TarFormat::TarGz
    } else if ext == "xz"@ || ext == "txz"@ {
        TarFormat::TarXz
    } else if ext == "bz2"@ || ext == "tbz2"@ {
        TarFormat::TarBz2
    } else if ext == "zst"@ || ext == "tzst"@ {
        TarFormat::TarZst
    } else if ext == "zip"@ {
        TarFormat::Zip
    } else if ext == "7z"@ {
        TarFormat::SevenZip
    } else {
        TarFormat::Raw
    }
}

/// The canonical name of each format.
pub open spec fn format_name(f: TarFormat) -> Seq<char> {
    match f {
        TarFormat::Auto => "Auto"@,
        TarFormat::TarGz => "tar.gz"@,
        TarFormat::TarXz => "tar.xz"@,
        TarFormat::TarBz2 => "tar.bz2"@,
        TarFormat::TarZst => "tar.zst"@,
        TarFormat::Zip => "zip"@,
        TarFormat::SevenZip => "7z"@,
        TarFormat::Raw => "raw"@,
    }
}

impl TarFormat {
    /// The format that an extension (without its dot) stands for; anything
    /// unknown is `Raw`.
    pub fn from_ext(ext: &str) -> (r: TarFormat)
        ensures
            r == format_of_ext(ext@),
    {
        if str_eq(ext, "gz") || str_eq(ext, "tgz") {
            TarFormat::TarGz
        } else if str_eq(ext, "xz") || str_eq(ext, "txz") {
            TarFormat::TarXz
        } else if str_eq(ext, "bz2") || str_eq(ext, "tbz2") {
            TarFormat::TarBz2
        } else if str_eq(ext, "zst") || str_eq(ext, "tzst") {
            TarFormat::TarZst
        } else if str_eq(ext, "zip") {
            TarFormat::Zip
        } else if str_eq(ext, "7z") {
            TarFormat::SevenZip
        } else {
            TarFormat::Raw
        }
    }

    /// The format's canonical name (`tar.gz`, `zip`, ...).
    pub fn name(&self) -> (r: &'static str)
        ensures
            r@ == format_name(*self),
    {
        match self {
            TarFormat::Auto => "Auto",
            TarFormat::TarGz => "tar.gz",
            TarFormat::TarXz => "tar.xz",
            TarFormat::TarBz2 => "tar.bz2",
            TarFormat::TarZst => "tar.zst",
            TarFormat::Zip => "zip",
            TarFormat::SevenZip => "7z",
            TarFormat::Raw => "raw",
        }
    }

    /// The format with canonical name `s`, if any.
    pub fn from_name(s: &str) -> (r: Option<TarFormat>)
        ensures
            match r {
                Some(f) => format_name(f) == s@,
                None => forall|f: TarFormat| format_name(f) != s@,
            },
    {
        let all = [
            TarFormat::Auto,
            TarFormat::TarGz,
            TarFormat::TarXz,
            TarFormat::TarBz2,
            TarFormat::TarZst,
            TarFormat::Zip,
            TarFormat::SevenZip,
            TarFormat::Raw,
        ];
        let mut i: usize = 0;
        while i < 8
            invariant
                forall|j: int| 0 <= j < i ==> format_name(#[trigger] all@[j]) != s@,
                all@ == seq![
                    TarFormat::Auto,
                    TarFormat::TarGz,
                    TarFormat::TarXz,
                    TarFormat::TarBz2,
                    TarFormat::TarZst,
                    TarFormat::Zip,
                    TarFormat::SevenZip,
                    TarFormat::Raw,
                ],
            decreases 8 - i,
        {
            if str_eq(all[i].name(), s) {
                return Some(all[i]);
            }
            i = i + 1;
        }
        proof {
            assert forall|f: TarFormat| format_name(f) != s@ by {
                match f {
                    TarFormat::Auto => assert(all@[0] == f),
                    TarFormat::TarGz => assert(all@[1] == f),
                    TarFormat::TarXz => assert(all@[2] == f),
                    TarFormat::TarBz2 => assert(all@[3] == f),
                    TarFormat::TarZst => assert(all@[4] == f),
                    TarFormat::Zip => assert(all@[5] == f),
                    TarFormat::SevenZip => assert(all@[6] == f),
                    TarFormat::Raw => assert(all@[7] == f),
                }
            }
        }
        None
    }
}

/// Why an archive could not be handled.
#[derive(PartialEq, Eq, Structural, Clone, Copy, Debug)]
pub enum ArchiveError {
    /// More than one leading path component was asked to be stripped.
    StripDepthUnsupported,
    /// A zip archive was sent down the tar path.
    ZipThroughTar,
    /// A 7z archive was sent down the tar path.
    SevenZipThroughTar,
    /// 7z archives are not supported on this platform.
    SevenZipUnsupported,
    /// The decoder rejected the bytes.
    Decompress,
    /// The tar stream could not be read.
    TarRead,
    /// The zip archive could not be read.
    ZipRead,
}

/// The decompression stream in front of the tar reader.
#[derive(PartialEq, Eq, Structural, Clone, Copy, Debug)]
pub enum Decoder {
    Gzip,
    Xz,
    Bzip2,
    Zstd,
}

/// The extension of a file name: what follows its last `.`, when that dot is
/// not the name's first character.
pub open spec fn extension_of(name: Seq<char>) -> Option<Seq<char>> {
    if exists|i: int| 0 < i < name.len() && name[i] == '.' {
        let i = choose|i: int|
            0 < i < name.len() && name[i] == '.' && forall|j: int| i < j < name.len() ==> name[j] != '.';
        Some(name.subrange(i + 1, name.len() as int))
    } else {
        None
    }
}

/// The file name of a path: its last component, unless that is the root, `.`
/// or `..`.
pub open spec fn file_name_of(p: Seq<char>) -> Option<Seq<char>> {
    let c = components(p);
    if c.len() == 0 || c.last() == seq!['/'] || c.last() == seq!['.'] || c.last() == seq!['.', '.'] {
        None
    } else {
        Some(c.last())
    }
}

/// The extension of the file that path `p` names.
pub open spec fn path_extension(p: Seq<char>) -> Option<Seq<char>> {
    match file_name_of(p) {
        Some(n) => extension_of(n),
        None => None,
    }
}

/// The format an archive is handled as: an explicit choice wins, otherwise the
/// extension decides, and a missing extension means `Raw`.
pub open spec fn resolved_format(f: TarFormat, archive: Seq<char>) -> TarFormat {
    match f {
        TarFormat::Auto => match path_extension(archive) {
            Some(ext) => format_of_ext(ext),
            None => TarFormat::Raw,
        },
        _ => f,
    }
}

/// The decoder for a tar archive of format `f` at path `archive`; zip and 7z
/// never go through it. `Raw` is read as gzip.
pub open spec fn decoder_spec(f: TarFormat, archive: Seq<char>) -> Result<Decoder, ArchiveError> {
    match f {
        TarFormat::TarGz | TarFormat::Raw => Ok(Decoder::Gzip),
        TarFormat::TarXz => Ok(Decoder::Xz),
        TarFormat::TarBz2 => Ok(Decoder::Bzip2),
        TarFormat::TarZst => Ok(Decoder::Zstd),
        TarFormat::Zip => Err(ArchiveError::ZipThroughTar),
        TarFormat::SevenZip => Err(ArchiveError::SevenZipThroughTar),
        TarFormat::Auto => match path_extension(archive) {
            Some(ext) => if ext == "xz"@ {
                Ok(Decoder::Xz)
            } else if ext == "bz2"@ {
                Ok(Decoder::Bzip2)
            } else if ext == "zst"@ {
                Ok(Decoder::Zstd)
            } else if ext == "zip"@ {
                Err(ArchiveError::ZipThroughTar)
            } else {
                Ok(Decoder::Gzip)
            },
            None => Ok(Decoder::Gzip),
        },
    }
}

/// Index of the last `.` of `s`.
fn rfind_dot(s: &str) -> (r: Option<usize>)
    ensures
        match r {
            Some(i) => i < s@.len() && s@[i as int] == '.' && forall|j: int| i < j < s@.len() ==> s@[j] != '.',
            None => forall|j: int| 0 <= j < s@.len() ==> s@[j] != '.',
        },
{
    let n = s.unicode_len();
    let mut i: usize = n;
    while i > 0
        invariant
            n == s@.len(),
            i <= n,
            forall|j: int| i <= j < n ==> s@[j] != '.',
        decreases i,
    {
        if s.get_char(i - 1) == '.' {
            return Some(i - 1);
        }
        i = i - 1;
    }
    None
}

/// The extension of a file name.
pub fn extension(name: &str) -> (r: Option<String>)
    ensures
        match r {
            Some(e) => extension_of(name@) == Some(e@),
            None => extension_of(name@) is None,
        },
{
    match rfind_dot(name) {
        Some(i) => {
            if i == 0 {
                return None;
            }
            proof {
                let k = choose|k: int|
                    0 < k < name@.len() && name@[k] == '.' && forall|j: int| k < j < name@.len() ==> name@[j] != '.';
                if k < i {
                    assert(name@[i as int] != '.');
                }
                if k > i {
                    assert(name@[k] != '.');
                }
            }
            let n = name.unicode_len();
            Some(name.substring_char(i + 1, n).to_owned())
        },
        None => None,
    }
}

/// The file name of a path.
pub fn file_name(p: &str) -> (r: Option<String>)
    ensures
        match r {
            Some(n) => file_name_of(p@) == Some(n@),
            None => file_name_of(p@) is None,
        },
{
    let comps = path_components(p);
    let ghost cv = comps@.map_values(|c: String| c@);
    if comps.len() == 0 {
        return None;
    }
    let last = &comps[comps.len() - 1];
    proof {
        assert(cv.last() == last@);
        reveal_strlit("/");
        reveal_strlit(".");
        reveal_strlit("..");
        assert("/"@ =~= seq!['/']);
        assert("."@ =~= seq!['.']);
        assert(".."@ =~= seq!['.', '.']);
    }
    if str_eq(last.as_str(), "/") || str_eq(last.as_str(), ".") || str_eq(last.as_str(), "..") {
        None
    } else {
        Some(last.clone())
    }
}

/// The extension of the file that a path names.
pub fn path_ext(p: &str) -> (r: Option<String>)
    ensures
        match r {
            Some(e) => path_extension(p@) == Some(e@),
            None => path_extension(p@) is None,
        },
{
    match file_name(p) {
        Some(n) => extension(n.as_str()),
        None => None,
    }
}

/// The format an archive at path `archive` is handled as.
pub fn resolve_format(format: TarFormat, archive: &str) -> (r: TarFormat)
    ensures
        r == resolved_format(format, archive@),
{
    match format {
        TarFormat::Auto => match path_ext(archive) {
            Some(ext) => TarFormat::from_ext(ext.as_str()),
            None => TarFormat::Raw,
        },
        _ => format,
    }
}

/// The decoder in front of the tar reader for an archive of format `format`.
pub fn tar_decoder(format: TarFormat, archive: &str) -> (r: Result<Decoder, ArchiveError>)
    ensures
        r == decoder_spec(format, archive@),
{
    match format {
        TarFormat::TarGz | TarFormat::Raw => Ok(Decoder::Gzip),
        TarFormat::TarXz => Ok(Decoder::Xz),
        TarFormat::TarBz2 => Ok(Decoder::Bzip2),
        TarFormat::TarZst => Ok(Decoder::Zstd),
        TarFormat::Zip => Err(ArchiveError::ZipThroughTar),
        TarFormat::SevenZip => Err(ArchiveError::SevenZipThroughTar),
        TarFormat::Auto => match path_ext(archive) {
            Some(ext) => {
                if str_eq(ext.as_str(), "xz") {
                    Ok(Decoder::Xz)
                } else if str_eq(ext.as_str(), "bz2") {
                    Ok(Decoder::Bzip2)
                } else if str_eq(ext.as_str(), "zst") {
                    Ok(Decoder::Zstd)
                } else if str_eq(ext.as_str(), "zip") {
                    Err(ArchiveError::ZipThroughTar)
                } else {
                    Ok(Decoder::Gzip)
                }
            },
            None => Ok(Decoder::Gzip),
        },
    }
}

/// Whether a wrapper directory is stripped: depth 0 keeps the layout, depth 1
/// strips it, and any deeper request is refused.
pub fn strip_wrapper(strip_depth: usize) -> (r: Result<bool, ArchiveError>)
    ensures
        strip_depth == 0 ==> r == Ok::<bool, ArchiveError>(false),
        strip_depth == 1 ==> r == Ok::<bool, ArchiveError>(true),
        strip_depth > 1 ==> r == Err::<bool, ArchiveError>(ArchiveError::StripDepthUnsupported),
{
    if strip_depth == 0 {
        Ok(false)
    } else if strip_depth == 1 {
        Ok(true)
    } else {
        Err(ArchiveError::StripDepthUnsupported)
    }
}

} // verus!

verus! {

/// Options of a tar-family extraction.
#[derive(Clone, Copy, Debug)]
pub struct TarOptions {
    pub format: TarFormat,
    pub strip_components: usize,
}

impl Default for TarOptions {
    fn default() -> (r: Self)
        ensures
            r.format == TarFormat::Auto,
            r.strip_components == 0,
    {
        TarOptions { format: TarFormat::Auto, strip_components: 0 }
    }
}

/// Options of a zip extraction.
#[derive(Clone, Copy, Debug)]
pub struct ZipOptions {
    pub strip_components: usize,
}

impl Default for ZipOptions {
    fn default() -> (r: Self)
        ensures
            r.strip_components == 0,
    {
        ZipOptions { strip_components: 0 }
    }
}

/// Options of a 7z extraction.
#[derive(Clone, Copy, Debug)]
pub struct SevenZipOptions {
    pub strip_components: usize,
}

impl Default for SevenZipOptions {
    fn default() -> (r: Self)
        ensures
            r.strip_components == 0,
    {
        SevenZipOptions { strip_components: 0 }
    }
}

/// Which unpacker an extraction goes through.
#[derive(PartialEq, Eq, Structural, Clone, Copy, Debug)]
pub enum Extractor {
    Zip,
    Tar(Decoder),
}

/// How an archive is extracted: the unpacker, and whether the wrapper
/// directory is stripped afterwards.
pub open spec fn extraction_spec(archive: Seq<char>, format: TarFormat, strip_depth: usize) -> Result<
    (Extractor, bool),
    ArchiveError,
> {
    if strip_depth > 1 {
        Err(ArchiveError::StripDepthUnsupported)
    } else {
        let f = resolved_format(format, archive);
        if f == TarFormat::Zip {
            Ok((Extractor::Zip, strip_depth == 1))
        } else if f == TarFormat::SevenZip {
            Err(ArchiveError::SevenZipUnsupported)
        } else {
            match decoder_spec(f, archive) {
                Ok(d) => Ok((Extractor::Tar(d), strip_depth == 1)),
                Err(e) => Err(e),
            }
        }
    }
}

/// Decides how to extract `archive` with options `opts`. A strip depth above
/// one is refused whatever the archive holds.
pub fn plan_untar(archive: &str, opts: &TarOptions) -> (r: Result<(Extractor, bool), ArchiveError>)
    ensures
        r == extraction_spec(archive@, opts.format, opts.strip_components),
        opts.strip_components > 1 ==> r == Err::<(Extractor, bool), ArchiveError>(
            ArchiveError::StripDepthUnsupported,
        ),
{
    let strip = match strip_wrapper(opts.strip_components) {
        Ok(s) => s,
        Err(e) => return Err(e),
    };
    let format = resolve_format(opts.format, archive);
    if format == TarFormat::Zip {
        Ok((Extractor::Zip, strip))
    } else if format == TarFormat::SevenZip {
        Err(ArchiveError::SevenZipUnsupported)
    } else {
        match tar_decoder(format, archive) {
            Ok(d) => Ok((Extractor::Tar(d), strip)),
            Err(e) => Err(e),
        }
    }
}

/// A top-level entry of an extraction directory: its name, whether it is a
/// directory, and the names it holds.
#[derive(Debug)]
pub struct TopEntry {
    pub name: String,
    pub is_dir: bool,
    pub children: Vec<String>,
}

pub type TopEntryView = (Seq<char>, bool, Seq<Seq<char>>);

pub open spec fn top_entry_view(e: TopEntry) -> TopEntryView {
    (e.name@, e.is_dir, e.children@.map_values(|c: String| c@))
}

/// The renames that strip one level: every child of every top-level entry,
/// as (entry, child), moved up to the top level under its own name.
pub open spec fn strip_moves(top: Seq<TopEntryView>) -> Seq<(Seq<char>, Seq<char>)>
    decreases top.len(),
{
    if top.len() == 0 {
        seq![]
    } else {
        strip_moves(top.drop_last()) + top.last().2.map_values(
            |c: Seq<char>| (top.last().0, c),
        )
    }
}

/// The top-level directories, emptied by the moves and then removed.
pub open spec fn strip_removals(top: Seq<TopEntryView>) -> Seq<Seq<char>>
    decreases top.len(),
{
    if top.len() == 0 {
        seq![]
    } else if top.last().1 {
        strip_removals(top.drop_last()).push(top.last().0)
    } else {
        strip_removals(top.drop_last())
    }
}

/// What stripping does to an extraction directory.
#[derive(Debug)]
pub struct StripPlan {
    /// (top-level entry, child): move `entry/child` to `child`.
    pub moves: Vec<(String, String)>,
    /// Top-level directories to remove once emptied.
    pub removals: Vec<String>,
}

/// The plan that strips one leading component from an extraction directory
/// whose top level is `top`.
pub fn plan_strip(top: &Vec<TopEntry>) -> (r: StripPlan)
    ensures
        r.moves@.map_values(|m: (String, String)| (m.0@, m.1@)) == strip_moves(
            top@.map_values(|e: TopEntry| top_entry_view(e)),
        ),
        r.removals@.map_values(|s: String| s@) == strip_removals(
            top@.map_values(|e: TopEntry| top_entry_view(e)),
        ),
{
    let ghost tv = top@.map_values(|e: TopEntry| top_entry_view(e));
    let mut moves: Vec<(String, String)> = Vec::new();
    let mut removals: Vec<String> = Vec::new();
    let mut i: usize = 0;
    while i < top.len()
        invariant
            i <= top.len(),
            tv == top@.map_values(|e: TopEntry| top_entry_view(e)),
            moves@.map_values(|m: (String, String)| (m.0@, m.1@)) == strip_moves(tv.subrange(0, i as int)),
            removals@.map_values(|s: String| s@) == strip_removals(tv.subrange(0, i as int)),
        decreases top.len() - i,
    {
        let e = &top[i];
        assert(tv.subrange(0, i + 1).drop_last() == tv.subrange(0, i as int));
        assert(tv.subrange(0, i + 1).last() == top_entry_view(*e));
        let ghost before = moves@.map_values(|m: (String, String)| (m.0@, m.1@));
        let ghost cs = e.children@.map_values(|c: String| c@);
        let mut j: usize = 0;
        while j < e.children.len()
            invariant
                j <= e.children.len(),
                cs == e.children@.map_values(|c: String| c@),
                moves.len() == before.len() + j,
                forall|k: int| 0 <= k < before.len() ==> (#[trigger] moves@[k]).0@ == before[k].0 && moves@[k].1@ == before[k].1,
                forall|k: int| 0 <= k < j ==> (#[trigger] moves@[before.len() + k]).0@ == e.name@ && moves@[before.len() + k].1@ == cs[k],
            decreases e.children.len() - j,
        {
            moves.push((e.name.clone(), e.children[j].clone()));
            j = j + 1;
        }
        let ghost mv = moves@.map_values(|m: (String, String)| (m.0@, m.1@));
        let ghost want = before + cs.map_values(|c: Seq<char>| (e.name@, c));
        assert forall|k: int| 0 <= k < moves.len() implies #[trigger] mv[k] == want[k] by {
            if k >= before.len() {
                let k2 = k - before.len();
                assert(moves@[before.len() + k2].0@ == e.name@);
            } else {
                assert(moves@[k].0@ == before[k].0);
            }
        }
        assert(moves@.map_values(|m: (String, String)| (m.0@, m.1@)) =~= before + cs.map_values(
            |c: Seq<char>| (e.name@, c),
        ));
        assert(cs.subrange(0, e.children.len() as int) == cs);
        if e.is_dir {
            removals.push(e.name.clone());
            assert(removals@.map_values(|s: String| s@) =~= strip_removals(tv.subrange(0, i as int)).push(e.name@));
        }
        i = i + 1;
    }
    assert(tv.subrange(0, top.len() as int) == tv);
    StripPlan { moves, removals }
}

/// The top-level names once the plan has run: entries that are not removed,
/// then the moved children.
pub open spec fn names_after_strip(top: Seq<TopEntryView>) -> Seq<Seq<char>> {
    top.filter(|e: TopEntryView| !e.1).map_values(|e: TopEntryView| e.0) + strip_moves(top).map_values(
        |m: (Seq<char>, Seq<char>)| m.1,
    )
}

/// Stripping a directory whose only top-level entry is a directory leaves
/// exactly that directory's children at the top, moved out of it, and removes
/// the directory itself.
pub proof fn lemma_strip_single_wrapper(top: Seq<TopEntryView>)
    requires
        top.len() == 1,
        top[0].1,
    ensures
        strip_moves(top) == top[0].2.map_values(|c: Seq<char>| (top[0].0, c)),
        strip_removals(top) == seq![top[0].0],
        names_after_strip(top) == top[0].2,
        !top[0].2.contains(top[0].0) ==> !names_after_strip(top).contains(top[0].0),
{
    assert(top.drop_last() == Seq::<TopEntryView>::empty());
    assert(top.last() == top[0]);
    assert(strip_moves(top.drop_last()) == Seq::<(Seq<char>, Seq<char>)>::empty());
    assert(strip_removals(top.drop_last()) == Seq::<Seq<char>>::empty());
    assert(strip_removals(top) =~= seq![top[0].0]);
    assert(strip_moves(top) =~= top[0].2.map_values(|c: Seq<char>| (top[0].0, c)));
    reveal(Seq::filter);
    assert(top.filter(|e: TopEntryView| !e.1) =~= Seq::<TopEntryView>::empty()) by {
        assert(top.drop_last().filter(|e: TopEntryView| !e.1) =~= Seq::<TopEntryView>::empty());
    }
    assert(names_after_strip(top) =~= top[0].2);
}

} // verus!

verus! {

/// The top-level components of an archive, each with whether some entry shows
/// it to be a directory, in order of first appearance.
pub type TopLevelView = Seq<(Seq<char>, bool)>;

/// Records that top-level component `name` was seen, as a directory or not.
pub open spec fn note_top(acc: TopLevelView, name: Seq<char>, dir: bool) -> TopLevelView {
    if exists|k: int| 0 <= k < acc.len() && acc[k].0 == name {
        let k = choose|k: int| 0 <= k < acc.len() && acc[k].0 == name;
        acc.update(k, (name, acc[k].1 || dir))
    } else {
        acc.push((name, dir))
    }
}

/// The top level of an archive whose entries are `entries` (path, whether the
/// entry is a directory). An entry makes its first component a directory when
/// it is one itself or lies below it.
pub open spec fn top_level(entries: Seq<(Seq<char>, bool)>) -> TopLevelView
    decreases entries.len(),
{
    if entries.len() == 0 {
        seq![]
    } else {
        let acc = top_level(entries.drop_last());
        let c = components(entries.last().0);
        if c.len() == 0 {
            acc
        } else {
            note_top(acc, c[0], entries.last().1 || c.len() > 1)
        }
    }
}

pub open spec fn names_unique(t: TopLevelView) -> bool {
    forall|i: int, j: int| 0 <= i < j < t.len() ==> t[i].0 != t[j].0
}

/// Whether an archive with this top level has a wrapper to strip: exactly one
/// top-level component, and it is a directory.
pub open spec fn strip_recommended(t: TopLevelView) -> bool {
    t.len() == 1 && t[0].1
}

pub open spec fn listing_view(v: Seq<(String, bool)>) -> Seq<(Seq<char>, bool)> {
    v.map_values(|e: (String, bool)| (e.0@, e.1))
}

/// Summarises archive entries into their top-level components.
pub fn summarize_top_level(entries: &Vec<(String, bool)>) -> (r: Vec<(String, bool)>)
    ensures
        listing_view(r@) == top_level(listing_view(entries@)),
        names_unique(listing_view(r@)),
{
    let ghost ev = listing_view(entries@);
    let mut out: Vec<(String, bool)> = Vec::new();
    let mut i: usize = 0;
    while i < entries.len()
        invariant
            i <= entries.len(),
            ev == listing_view(entries@),
            listing_view(out@) == top_level(ev.subrange(0, i as int)),
            names_unique(listing_view(out@)),
        decreases entries.len() - i,
    {
        let ghost pre = ev.subrange(0, i as int);
        assert(ev.subrange(0, i + 1).drop_last() == pre);
        assert(ev.subrange(0, i + 1).last() == (entries@[i as int].0@, entries@[i as int].1));
        let comps = path_components(entries[i].0.as_str());
        let ghost cv = comps@.map_values(|c: String| c@);
        if comps.len() > 0 {
            let name = &comps[0];
            let dir = entries[i].1 || comps.len() > 1;
            assert(cv[0] == name@);
            let ghost acc = listing_view(out@);
            match find_name(&out, name) {
                Some(k) => {
                    proof {
                        let c = choose|c: int| 0 <= c < acc.len() && acc[c].0 == name@;
                        assert(acc[k as int].0 == name@);
                        if c != k {
                            assert(acc[c].0 == acc[k as int].0);
                        }
                    }
                    let was = out[k].1;
                    out.set(k, (name.clone(), was || dir));
                    proof {
                        assert(listing_view(out@) =~= note_top(acc, name@, dir));
                    }
                },
                None => {
                    proof {
                        assert forall|c: int| 0 <= c < acc.len() implies acc[c].0 != name@ by {
                            assert(acc[c].0 == out@[c].0@);
                        }
                    }
                    out.push((name.clone(), dir));
                    proof {
                        assert(listing_view(out@) =~= note_top(acc, name@, dir));
                    }
                },
            }
        } else {
            assert(listing_view(out@) == top_level(ev.subrange(0, i + 1)));
        }
        i = i + 1;
    }
    assert(ev.subrange(0, entries.len() as int) == ev);
    out
}

fn find_name(v: &Vec<(String, bool)>, name: &String) -> (r: Option<usize>)
    ensures
        match r {
            Some(k) => k < v.len() && v@[k as int].0@ == name@,
            None => forall|j: int| 0 <= j < v.len() ==> v@[j].0@ != name@,
        },
{
    let mut k: usize = 0;
    while k < v.len()
        invariant
            k <= v.len(),
            forall|j: int| 0 <= j < k ==> v@[j].0@ != name@,
        decreases v.len() - k,
    {
        if v[k].0 == *name {
            return Some(k);
        }
        k = k + 1;
    }
    None
}

/// Whether a summarised top level recommends stripping.
pub fn recommends_strip(top: &Vec<(String, bool)>) -> (r: bool)
    ensures
        r == strip_recommended(listing_view(top@)),
{
    top.len() == 1 && top[0].1
}

/// What the gzip decoder of flate2 makes of some bytes, `None` when it fails.
pub uninterp spec fn gunzip_of(data: Seq<u8>) -> Option<Seq<u8>>;

/// What the xz decoder of xz2 makes of some bytes.
pub uninterp spec fn unxz_of(data: Seq<u8>) -> Option<Seq<u8>>;

/// What the bzip2 decoder of bzip2 makes of some bytes.
pub uninterp spec fn bunzip2_of(data: Seq<u8>) -> Option<Seq<u8>>;

/// What the zstd decoder of zstd makes of some bytes.
pub uninterp spec fn unzstd_of(data: Seq<u8>) -> Option<Seq<u8>>;

/// The entries (path, is a directory) that tar's reader finds in a tar stream.
pub uninterp spec fn tar_entries_of(data: Seq<u8>) -> Option<Seq<(Seq<char>, bool)>>;

/// The entries (enclosed name if safe, is a directory) that zip's reader
/// finds in a zip archive.
pub uninterp spec fn zip_entries_of(data: Seq<u8>) -> Option<Seq<(Option<Seq<char>>, bool)>>;

pub open spec fn bytes_view(r: Option<Vec<u8>>) -> Option<Seq<u8>> {
    match r {
        Some(v) => Some(v@),
        None => None,
    }
}

/// Relies on flate2::read::GzDecoder: decodes the first gzip member.
#[verifier::external_body]
fn gunzip(data: &[u8]) -> (r: Option<Vec<u8>>)
    ensures
        bytes_view(r) == gunzip_of(data@),
{
    let mut out = Vec::new();
    match flate2::read::GzDecoder::new(data).read_to_end(&mut out) {
        Ok(_) => Some(out),
        Err(_) => None,
    }
}

/// Relies on xz2::read::XzDecoder: decodes an xz stream.
#[verifier::external_body]
fn unxz(data: &[u8]) -> (r: Option<Vec<u8>>)
    ensures
        bytes_view(r) == unxz_of(data@),
{
    let mut out = Vec::new();
    match xz2::read::XzDecoder::new(data).read_to_end(&mut out) {
        Ok(_) => Some(out),
        Err(_) => None,
    }
}

/// Relies on bzip2::read::BzDecoder: decodes a bzip2 stream.
#[verifier::external_body]
fn bunzip2(data: &[u8]) -> (r: Option<Vec<u8>>)
    ensures
        bytes_view(r) == bunzip2_of(data@),
{
    let mut out = Vec::new();
    match bzip2::read::BzDecoder::new(data).read_to_end(&mut out) {
        Ok(_) => Some(out),
        Err(_) => None,
    }
}

/// Relies on zstd::stream::decode_all: decodes a zstd stream.
#[verifier::external_body]
fn unzstd(data: &[u8]) -> (r: Option<Vec<u8>>)
    ensures
        bytes_view(r) == unzstd_of(data@),
{
    zstd::stream::decode_all(data).ok()
}

pub open spec fn opt_listing_view(r: Option<Vec<(String, bool)>>) -> Option<Seq<(Seq<char>, bool)>> {
    match r {
        Some(v) => Some(listing_view(v@)),
        None => None,
    }
}

/// Relies on tar::Archive::entries: each entry's path (lossily as text) and
/// whether its header marks a directory; `None` when the stream is unreadable.
#[verifier::external_body]
fn tar_entries(data: &[u8]) -> (r: Option<Vec<(String, bool)>>)
    ensures
        opt_listing_view(r) == tar_entries_of(data@),
{
    let mut archive = tar::Archive::new(data);
    let entries = archive.entries().ok()?;
    entries
        .map(|e| {
            let e = e.ok()?;
            let p = e.path().ok()?.to_string_lossy().to_string();
            Some((p, e.header().entry_type().is_dir()))
        })
        .collect()
}

pub open spec fn zip_listing_view(r: Option<Vec<(Option<String>, bool)>>) -> Option<Seq<(Option<Seq<char>>, bool)>> {
    match r {
        Some(v) => Some(v@.map_values(|e: (Option<String>, bool)| (
            match e.0 {
                Some(n) => Some(n@),
                None => None,
            },
            e.1,
        ))),
        None => None,
    }
}

/// Relies on zip::ZipArchive: for each file, its enclosed name (lossily as
/// text, `None` when unsafe) and whether it is a directory.
#[verifier::external_body]
fn zip_entries(data: &[u8]) -> (r: Option<Vec<(Option<String>, bool)>>)
    ensures
        zip_listing_view(r) == zip_entries_of(data@),
{
    let mut archive = zip::ZipArchive::new(std::io::Cursor::new(data)).ok()?;
    let mut out = Vec::new();
    for i in 0..archive.len() {
        let f = archive.by_index(i).ok()?;
        out.push((f.enclosed_name().map(|p| p.to_string_lossy().to_string()), f.is_dir()));
    }
    Some(out)
}

} // verus!

verus! {

/// What decoder `d` makes of `data`.
pub open spec fn decoded(d: Decoder, data: Seq<u8>) -> Option<Seq<u8>> {
    match d {
        Decoder::Gzip => gunzip_of(data),
        Decoder::Xz => unxz_of(data),
        Decoder::Bzip2 => bunzip2_of(data),
        Decoder::Zstd => unzstd_of(data),
    }
}

/// Runs decoder `d` over `data`.
pub fn decompress(d: Decoder, data: &[u8]) -> (r: Option<Vec<u8>>)
    ensures
        bytes_view(r) == decoded(d, data@),
{
    match d {
        Decoder::Gzip => gunzip(data),
        Decoder::Xz => unxz(data),
        Decoder::Bzip2 => bunzip2(data),
        Decoder::Zstd => unzstd(data),
    }
}

/// The top level of a tar-family archive at path `archive` holding `data`.
pub open spec fn tar_top_level(archive: Seq<char>, data: Seq<u8>, format: TarFormat) -> Result<
    TopLevelView,
    ArchiveError,
> {
    match decoder_spec(format, archive) {
        Err(e) => Err(e),
        Ok(d) => match decoded(d, data) {
            None => Err(ArchiveError::Decompress),
            Some(tar) => match tar_entries_of(tar) {
                None => Err(ArchiveError::TarRead),
                Some(l) => Ok(top_level(l)),
            },
        },
    }
}

/// The zip entries that have a safe name.
pub open spec fn safe_entries(l: Seq<(Option<Seq<char>>, bool)>) -> Seq<(Seq<char>, bool)>
    decreases l.len(),
{
    if l.len() == 0 {
        seq![]
    } else {
        match l.last().0 {
            Some(n) => safe_entries(l.drop_last()).push((n, l.last().1)),
            None => safe_entries(l.drop_last()),
        }
    }
}

/// The top level of a zip archive holding `data`.
pub open spec fn zip_top_level(data: Seq<u8>) -> Result<TopLevelView, ArchiveError> {
    match zip_entries_of(data) {
        None => Err(ArchiveError::ZipRead),
        Some(l) => Ok(top_level(safe_entries(l))),
    }
}

/// The top level of an archive of format `format`; 7z cannot be read here.
pub open spec fn archive_top_level(archive: Seq<char>, data: Seq<u8>, format: TarFormat) -> Result<
    TopLevelView,
    ArchiveError,
> {
    match format {
        TarFormat::Zip => zip_top_level(data),
        TarFormat::SevenZip => Err(ArchiveError::SevenZipUnsupported),
        _ => tar_top_level(archive, data, format),
    }
}

pub open spec fn top_result_view(r: Result<Vec<(String, bool)>, ArchiveError>) -> Result<TopLevelView, ArchiveError> {
    match r {
        Ok(v) => Ok(listing_view(v@)),
        Err(e) => Err(e),
    }
}

/// The top-level components of a tar-family archive, read without
/// extracting it.
pub fn inspect_tar_contents(archive: &str, data: &[u8], format: TarFormat) -> (r: Result<
    Vec<(String, bool)>,
    ArchiveError,
>)
    ensures
        top_result_view(r) == tar_top_level(archive@, data@, format),
{
    let d = match tar_decoder(format, archive) {
        Ok(d) => d,
        Err(e) => return Err(e),
    };
    let tar = match decompress(d, data) {
        Some(t) => t,
        None => return Err(ArchiveError::Decompress),
    };
    match tar_entries(tar.as_slice()) {
        Some(entries) => Ok(summarize_top_level(&entries)),
        None => Err(ArchiveError::TarRead),
    }
}

/// The top-level components of a zip archive, read without extracting it.
pub fn inspect_zip_contents(data: &[u8]) -> (r: Result<Vec<(String, bool)>, ArchiveError>)
    ensures
        top_result_view(r) == zip_top_level(data@),
{
    let listed = match zip_entries(data) {
        Some(l) => l,
        None => return Err(ArchiveError::ZipRead),
    };
    let ghost lv = zip_listing_view(Some(listed))->Some_0;
    let mut safe: Vec<(String, bool)> = Vec::new();
    let mut i: usize = 0;
    while i < listed.len()
        invariant
            i <= listed.len(),
            lv == zip_listing_view(Some(listed))->Some_0,
            listing_view(safe@) == safe_entries(lv.subrange(0, i as int)),
        decreases listed.len() - i,
    {
        assert(lv.subrange(0, i + 1).drop_last() == lv.subrange(0, i as int));
        match &listed[i].0 {
            Some(n) => {
                safe.push((n.clone(), listed[i].1));
                assert(listing_view(safe@) =~= safe_entries(lv.subrange(0, i + 1)));
            },
            None => {},
        }
        i = i + 1;
    }
    assert(lv.subrange(0, listed.len() as int) == lv);
    Ok(summarize_top_level(&safe))
}

/// 7z archives cannot be inspected on this platform.
pub fn inspect_7z_contents(data: &[u8]) -> (r: Result<Vec<(String, bool)>, ArchiveError>)
    ensures
        r == Err::<Vec<(String, bool)>, ArchiveError>(ArchiveError::SevenZipUnsupported),
{
    Err(ArchiveError::SevenZipUnsupported)
}

/// Whether extracting the archive at path `archive`, holding `data`, should
/// strip one leading component: true exactly when its top level is a single
/// directory. `Auto` is first resolved through the extension table.
pub fn should_strip_components(archive: &str, data: &[u8], format: TarFormat) -> (r: Result<
    bool,
    ArchiveError,
>)
    ensures
        r == match archive_top_level(archive@, data@, resolved_format(format, archive@)) {
            Ok(t) => Ok(strip_recommended(t)),
            Err(e) => Err::<bool, ArchiveError>(e),
        },
{
    let format = resolve_format(format, archive);
    let top = match format {
        TarFormat::Zip => inspect_zip_contents(data),
        TarFormat::SevenZip => inspect_7z_contents(data),
        _ => inspect_tar_contents(archive, data, format),
    };
    match top {
        Ok(t) => Ok(recommends_strip(&t)),
        Err(e) => Err(e),
    }
}

} // verus!
