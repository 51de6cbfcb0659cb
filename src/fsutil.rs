//! The filesystem utility layer's decisions: how paths are shown and
//! expanded, where an upward search looks, how a symlink is replaced, which
//! mode bits mean executable, and the lookup cache of `which`.
use vstd::prelude::*;

use crate::archive::file_name_of;
use crate::path::{
    components, join, join_spec, path_components, render, render_components, starts_with_path,
    strip_prefix, strip_prefix_spec,
};
use crate::request::{find_char, str_eq};

verus! {

/// A path as shown to the user: `home` at its start becomes `~` (never for a
/// home of `/`).
pub open spec fn display_spec(p: Seq<char>, home: Seq<char>) -> Seq<char> {
    if home != "/"@ && starts_with_path(p, home) && home.len() <= p.len() && p.subrange(
        0,
        home.len() as int,
    ) == home {
        "~"@ + p.subrange(home.len() as int, p.len() as int)
    } else {
        p
    }
}

fn has_text_prefix(p: &str, pre: &str) -> (r: bool)
    ensures
        r == (pre@.len() <= p@.len() && p@.subrange(0, pre@.len() as int) == pre@),
{
    let n = pre.unicode_len();
    n <= p.unicode_len() && str_eq(p.substring_char(0, n), pre)
}

/// Shows a path with the home directory as `~`.
pub fn display_path(p: &str, home: &str) -> (r: String)
    ensures
        r@ == display_spec(p@, home@),
{
    let pc = path_components(p);
    let hc = path_components(home);
    let under = crate::path::components_start_with(&pc, &hc);
    if !str_eq(home, "/") && under && has_text_prefix(p, home) {
        let n = home.unicode_len();
        let m = p.unicode_len();
        "~".to_owned().concat(p.substring_char(n, m))
    } else {
        p.to_owned()
    }
}

/// A path as shown relative to the working directory `cwd`: `./` and the
/// rest when it lies under `cwd`, else as `display_path` shows it.
pub open spec fn display_rel_spec(p: Seq<char>, cwd: Seq<char>, home: Seq<char>) -> Seq<char> {
    match strip_prefix_spec(p, cwd) {
        Some(rel) => "./"@ + rel,
        None => display_spec(p, home),
    }
}

pub fn display_rel_path(p: &str, cwd: &str, home: &str) -> (r: String)
    ensures
        r@ == display_rel_spec(p@, cwd@, home@),
{
    match strip_prefix(p, cwd) {
        Some(rel) => "./".to_owned().concat(rel.as_str()),
        None => display_path(p, home),
    }
}

/// `~` expanded: a path whose first component is `~` continues from `home`.
pub open spec fn replace_path_spec(p: Seq<char>, home: Seq<char>) -> Seq<char> {
    if components(p).len() > 0 && components(p)[0] == "~"@ {
        join_spec(home, render(components(p).subrange(1, components(p).len() as int)))
    } else {
        p
    }
}

/// Expands a leading `~` component to the home directory.
pub fn replace_path(p: &str, home: &str) -> (r: String)
    ensures
        r@ == replace_path_spec(p@, home@),
{
    let pc = path_components(p);
    let ghost pv = pc@.map_values(|c: String| c@);
    if pc.len() > 0 && str_eq(pc[0].as_str(), "~") {
        let mut rest: Vec<String> = Vec::new();
        let mut i: usize = 1;
        while i < pc.len()
            invariant
                1 <= i <= pc.len(),
                pv == pc@.map_values(|c: String| c@),
                rest.len() == i - 1,
                forall|j: int| 0 <= j < rest.len() ==> (#[trigger] rest@[j])@ == pv[1 + j],
            decreases pc.len() - i,
        {
            rest.push(pc[i].clone());
            i = i + 1;
        }
        assert(rest@.map_values(|c: String| c@) =~= pv.subrange(1, pv.len() as int));
        let tail = render_components(&rest);
        join(home, tail.as_str())
    } else {
        p.to_owned()
    }
}

/// Every non-overlapping occurrence of `pat`, from the left, replaced by
/// `rep`; an empty `pat` replaces nothing.
pub open spec fn replace_all(s: Seq<char>, pat: Seq<char>, rep: Seq<char>) -> Seq<char>
    decreases s.len(),
{
    if s.len() == 0 {
        seq![]
    } else if pat.len() > 0 && pat.len() <= s.len() && s.subrange(0, pat.len() as int) == pat {
        rep + replace_all(s.subrange(pat.len() as int, s.len() as int), pat, rep)
    } else {
        seq![s[0]] + replace_all(s.drop_first(), pat, rep)
    }
}

/// Replaces the home directory with `~` wherever it occurs in a text.
pub fn replace_paths_in_string(input: &str, home: &str) -> (r: String)
    ensures
        r@ == replace_all(input@, home@, "~"@),
{
    let n = input.unicode_len();
    let k = home.unicode_len();
    let mut out = String::new();
    let mut i: usize = 0;
    assert(input@.subrange(0, n as int) =~= input@);
    while i < n
        invariant
            n == input@.len(),
            k == home@.len(),
            i <= n,
            out@ + replace_all(input@.subrange(i as int, n as int), home@, "~"@) == replace_all(input@, home@, "~"@),
        decreases n - i,
    {
        let ghost rest = input@.subrange(i as int, n as int);
        if k > 0 && k <= n - i && str_eq(input.substring_char(i, i + k), home) {
            proof {
                assert(rest.subrange(0, k as int) =~= input@.subrange(i as int, i + k));
                assert(rest.subrange(k as int, rest.len() as int) =~= input@.subrange(i + k, n as int));
            }
            out.append("~");
            assert(out@ + replace_all(input@.subrange(i + k, n as int), home@, "~"@) =~= replace_all(input@, home@, "~"@));
            i = i + k;
        } else {
            proof {
                if k > 0 && k <= n - i {
                    assert(rest.subrange(0, k as int) =~= input@.subrange(i as int, i + k));
                }
                assert(rest.drop_first() =~= input@.subrange(i + 1, n as int));
                assert(input@.subrange(i as int, i + 1) =~= seq![rest[0]]);
            }
            out.append(input.substring_char(i, i + 1));
            assert(out@ + replace_all(input@.subrange(i + 1, n as int), home@, "~"@) =~= replace_all(input@, home@, "~"@));
            i = i + 1;
        }
    }
    assert(out@ + replace_all(input@.subrange(n as int, n as int), home@, "~"@) == out@ + Seq::<char>::empty());
    assert(out@ + Seq::<char>::empty() =~= out@);
    out
}

/// A file name split at its first `.`: the part before, and the part after
/// (empty when there is no dot).
pub open spec fn split_name_spec(name: Seq<char>) -> (Seq<char>, Seq<char>) {
    if exists|i: int| 0 <= i < name.len() && name[i] == '.' {
        let i = choose|i: int| 0 <= i < name.len() && name[i] == '.' && forall|j: int| 0 <= j < i ==> name[j] != '.';
        (name.subrange(0, i), name.subrange(i + 1, name.len() as int))
    } else {
        (name, seq![])
    }
}

/// The base and the extension part of the file that a path names.
pub fn split_file_name(p: &str) -> (r: (String, String))
    requires
        file_name_of(p@) is Some,
    ensures
        (r.0@, r.1@) == split_name_spec(file_name_of(p@)->Some_0),
{
    let name = match crate::archive::file_name(p) {
        Some(n) => n,
        None => {
            proof {
                assert(false);
            }
            String::new()
        },
    };
    let n = name.as_str().unicode_len();
    match find_char(name.as_str(), '.') {
        Some(i) => {
            proof {
                let k = choose|k: int| 0 <= k < name@.len() && name@[k] == '.' && forall|j: int| 0 <= j < k ==> name@[j] != '.';
                assert(k == i as int);
            }
            (name.as_str().substring_char(0, i).to_owned(), name.as_str().substring_char(i + 1, n).to_owned())
        },
        None => {
            let r = (name.clone(), String::new());
            r
        },
    }
}

} // verus!

verus! {

/// The directories an upward search visits from `p`: `p` itself, then each
/// parent in turn, up to the root (`/` for an absolute path, the empty path
/// for a relative one).
pub open spec fn search_dirs(p: Seq<char>) -> Seq<Seq<char>> {
    let cs = components(p);
    let low: int = if crate::path::is_absolute(p) { 1 } else { 0 };
    Seq::new((cs.len() - low + 1) as nat, |i: int| render(cs.subrange(0, cs.len() - i)))
}

/// The candidates of the first `k` directories: in each, every name in turn.
pub open spec fn candidates_upto(dirs: Seq<Seq<char>>, names: Seq<Seq<char>>, k: int) -> Seq<Seq<char>>
    decreases k,
{
    if k <= 0 {
        seq![]
    } else {
        candidates_upto(dirs, names, k - 1) + names.map_values(|f: Seq<char>| join_spec(dirs[k - 1], f))
    }
}

pub open spec fn search_candidates(p: Seq<char>, names: Seq<Seq<char>>) -> Seq<Seq<char>> {
    candidates_upto(search_dirs(p), names, search_dirs(p).len() as int)
}

fn prefix_of(cs: &Vec<String>, k: usize) -> (r: Vec<String>)
    requires
        k <= cs.len(),
    ensures
        r@.map_values(|c: String| c@) == cs@.map_values(|c: String| c@).subrange(0, k as int),
{
    let mut out: Vec<String> = Vec::new();
    let mut i: usize = 0;
    while i < k
        invariant
            i <= k <= cs.len(),
            out.len() == i,
            forall|j: int| 0 <= j < i ==> (#[trigger] out@[j])@ == cs@[j]@,
        decreases k - i,
    {
        out.push(cs[i].clone());
        i = i + 1;
    }
    assert(out@.map_values(|c: String| c@) =~= cs@.map_values(|c: String| c@).subrange(0, k as int));
    out
}

/// The directories an upward search from `from` visits, in order.
pub fn search_dir_list(from: &str) -> (r: Vec<String>)
    ensures
        r@.map_values(|s: String| s@) == search_dirs(from@),
{
    let ghost dirs = search_dirs(from@);
    let cs = path_components(from);
    let absolute = from.unicode_len() > 0 && from.get_char(0) == '/';
    let low: usize = if absolute { 1 } else { 0 };
    proof {
        if absolute {
            assert(components(from@)[0] == seq!['/']);
        }
    }
    let last = cs.len() - low;
    assert(dirs.len() == last + 1);
    let mut out: Vec<String> = Vec::new();
    let mut i: usize = 0;
    loop
        invariant_except_break
            out.len() == i,
        invariant
            last == cs.len() - low,
            low <= cs.len(),
            i <= last,
            dirs == search_dirs(from@),
            dirs.len() == last + 1,
            cs@.map_values(|c: String| c@) == components(from@),
            low == (if crate::path::is_absolute(from@) { 1int } else { 0int }),
            forall|j: int| 0 <= j < out.len() ==> (#[trigger] out@[j])@ == dirs[j],
        ensures
            out.len() == dirs.len(),
        decreases last - i,
    {
        let pre = prefix_of(&cs, cs.len() - i);
        let dir = render_components(&pre);
        assert(dir@ == dirs[i as int]);
        out.push(dir);
        if i == last {
            break;
        }
        i = i + 1;
    }
    assert(out@.map_values(|s: String| s@) =~= dirs);
    out
}

/// Every directory from `cwd` up to the root.
pub fn all_dirs(cwd: &str) -> (r: Vec<String>)
    ensures
        r@.map_values(|s: String| s@) == search_dirs(cwd@),
{
    search_dir_list(cwd)
}

/// Every path an upward search from `from` checks, in order: in each
/// directory from `from` up, each of `names` in turn.
pub fn find_up_candidates(from: &str, names: &Vec<String>) -> (r: Vec<String>)
    ensures
        r@.map_values(|s: String| s@) == search_candidates(from@, names@.map_values(|s: String| s@)),
{
    let ghost nv = names@.map_values(|s: String| s@);
    let dirs = search_dir_list(from);
    let ghost dv = search_dirs(from@);
    let mut out: Vec<String> = Vec::new();
    let mut i: usize = 0;
    while i < dirs.len()
        invariant
            i <= dirs.len(),
            nv == names@.map_values(|s: String| s@),
            dv == search_dirs(from@),
            dirs@.map_values(|s: String| s@) == dv,
            out@.map_values(|s: String| s@) == candidates_upto(dv, nv, i as int),
        decreases dirs.len() - i,
    {
        let dir = &dirs[i];
        assert(dir@ == dv[i as int]);
        let ghost before = out@.map_values(|s: String| s@);
        let mut j: usize = 0;
        while j < names.len()
            invariant
                j <= names.len(),
                nv == names@.map_values(|s: String| s@),
                out.len() == before.len() + j,
                forall|t: int| 0 <= t < before.len() ==> (#[trigger] out@[t])@ == before[t],
                forall|t: int| 0 <= t < j ==> (#[trigger] out@[before.len() + t])@ == join_spec(dir@, nv[t]),
            decreases names.len() - j,
        {
            out.push(join(dir.as_str(), names[j].as_str()));
            j = j + 1;
        }
        proof {
            let want = before + nv.map_values(|f: Seq<char>| join_spec(dv[i as int], f));
            let got = out@.map_values(|s: String| s@);
            assert forall|t: int| 0 <= t < got.len() implies #[trigger] got[t] == want[t] by {
                if t >= before.len() {
                    let t2 = t - before.len();
                    assert(out@[before.len() + t2]@ == join_spec(dir@, nv[t2]));
                }
            }
            assert(got =~= want);
        }
        i = i + 1;
    }
    out
}

/// An upward search for any of a list of file names; in each directory the
/// names are tried from the last to the first.
#[derive(Debug)]
pub struct FindUp {
    from: String,
    filenames: Vec<String>,
}

impl FindUp {
    pub closed spec fn spec_from(&self) -> Seq<char> {
        self.from@
    }

    pub closed spec fn spec_filenames(&self) -> Seq<Seq<char>> {
        self.filenames@.map_values(|s: String| s@)
    }

    pub fn new(from: &str, filenames: &Vec<String>) -> (r: Self)
        ensures
            r.spec_from() == from@,
            r.spec_filenames() == filenames@.map_values(|s: String| s@),
    {
        let mut names: Vec<String> = Vec::new();
        let mut i: usize = 0;
        while i < filenames.len()
            invariant
                i <= filenames.len(),
                names.len() == i,
                forall|j: int| 0 <= j < i ==> (#[trigger] names@[j])@ == filenames@[j]@,
            decreases filenames.len() - i,
        {
            names.push(filenames[i].clone());
            i = i + 1;
        }
        assert(names@.map_values(|s: String| s@) =~= filenames@.map_values(|s: String| s@));
        FindUp { from: from.to_owned(), filenames: names }
    }

    /// The paths the search checks, in order.
    pub fn candidates(&self) -> (r: Vec<String>)
        ensures
            r@.map_values(|s: String| s@) == search_candidates(self.spec_from(), self.spec_filenames().reverse()),
    {
        let mut rev: Vec<String> = Vec::new();
        let n = self.filenames.len();
        let mut i: usize = 0;
        while i < n
            invariant
                n == self.filenames.len(),
                i <= n,
                rev.len() == i,
                forall|j: int| 0 <= j < i ==> (#[trigger] rev@[j])@ == self.filenames@[n - 1 - j]@,
            decreases n - i,
        {
            rev.push(self.filenames[n - 1 - i].clone());
            i = i + 1;
        }
        assert(rev@.map_values(|s: String| s@) =~= self.spec_filenames().reverse());
        find_up_candidates(self.from.as_str(), &rev)
    }
}

} // verus!

verus! {

/// What is at a link path before it is (re)placed.
#[derive(Debug)]
pub enum LinkSlot {
    Missing,
    File,
    Symlink(String),
    Directory,
}

pub enum LinkSlotView {
    Missing,
    File,
    Symlink(Seq<char>),
    Directory,
}

impl View for LinkSlot {
    type V = LinkSlotView;

    open spec fn view(&self) -> LinkSlotView {
        match self {
            LinkSlot::Missing => LinkSlotView::Missing,
            LinkSlot::File => LinkSlotView::File,
            LinkSlot::Symlink(t) => LinkSlotView::Symlink(t@),
            LinkSlot::Directory => LinkSlotView::Directory,
        }
    }
}

/// Whether replacing a link first removes what is there: a file or a
/// symlink is removed, nothing else is.
pub open spec fn removes_first(slot: LinkSlotView) -> bool {
    slot is File || slot is Symlink
}

/// The link path after making it a symlink to `target`: remove a file or
/// symlink, then create the link; creation fails over a directory.
pub open spec fn after_make_symlink(slot: LinkSlotView, target: Seq<char>) -> Option<LinkSlotView> {
    match slot {
        LinkSlotView::Directory => None,
        _ => Some(LinkSlotView::Symlink(target)),
    }
}

/// Whether making a symlink at a path holding `slot` removes it first.
pub fn symlink_removes_first(slot: &LinkSlot) -> (r: bool)
    ensures
        r == removes_first(slot@),
{
    match slot {
        LinkSlot::File | LinkSlot::Symlink(_) => true,
        _ => false,
    }
}

/// Replacing a symlink twice with the same target is the same as once: the
/// second call succeeds and leaves one link to the target.
pub proof fn lemma_symlink_idempotent(slot: LinkSlotView, target: Seq<char>)
    requires
        after_make_symlink(slot, target) is Some,
    ensures
        after_make_symlink(slot, target) == Some(LinkSlotView::Symlink(target)),
        removes_first(after_make_symlink(slot, target)->Some_0),
        after_make_symlink(after_make_symlink(slot, target)->Some_0, target) == after_make_symlink(slot, target),
{
}

/// Whether permission bits `mode` let someone execute the file.
pub fn is_executable(mode: u32) -> (r: bool)
    ensures
        r == (mode & 0o111 != 0),
{
    mode & 0o111 != 0
}

/// Permission bits `mode` with execute allowed for owner, group and others.
pub fn executable_mode(mode: u32) -> (r: u32)
    ensures
        r == mode | 0o111,
        r & 0o111 == 0o111,
        r & !0o111u32 == mode & !0o111u32,
{
    let r = mode | 0o111;
    assert(r & 0o111 == 0o111) by (bit_vector)
        requires r == mode | 0o111;
    assert(r & !0o111u32 == mode & !0o111u32) by (bit_vector)
        requires r == mode | 0o111;
    r
}

/// The message of a failed filesystem operation: the verb and the path.
pub fn fs_error_message(verb: &str, path: &str) -> (r: String)
    ensures
        r@ == "failed "@ + verb@ + ": "@ + path@,
{
    "failed ".to_owned().concat(verb).concat(": ").concat(path)
}

/// The paths `which` looks at for `name`, one per search directory, in order.
pub fn which_candidates(name: &str, dirs: &Vec<String>) -> (r: Vec<String>)
    ensures
        r@.map_values(|s: String| s@) == dirs@.map_values(|d: String| join_spec(d@, name@)),
{
    let mut out: Vec<String> = Vec::new();
    let mut i: usize = 0;
    while i < dirs.len()
        invariant
            i <= dirs.len(),
            out.len() == i,
            forall|j: int| 0 <= j < i ==> (#[trigger] out@[j])@ == join_spec(dirs@[j]@, name@),
        decreases dirs.len() - i,
    {
        out.push(join(dirs[i].as_str(), name));
        i = i + 1;
    }
    assert(out@.map_values(|s: String| s@) =~= dirs@.map_values(|d: String| join_spec(d@, name@)));
    out
}

pub type CacheView = Seq<(Seq<char>, Option<Seq<char>>)>;

/// The remembered result for `name`, if any.
pub open spec fn cache_lookup(c: CacheView, name: Seq<char>) -> Option<Option<Seq<char>>> {
    if exists|k: int| 0 <= k < c.len() && c[k].0 == name {
        Some(c[choose|k: int| 0 <= k < c.len() && c[k].0 == name].1)
    } else {
        None
    }
}

/// Lookups of `which` remembered by name, for the life of the cache.
#[derive(Debug)]
pub struct WhichCache {
    entries: Vec<(String, Option<String>)>,
}

pub open spec fn opt_path_view(o: Option<String>) -> Option<Seq<char>> {
    match o {
        Some(s) => Some(s@),
        None => None,
    }
}

impl View for WhichCache {
    type V = CacheView;

    closed spec fn view(&self) -> CacheView {
        self.entries@.map_values(|e: (String, Option<String>)| (e.0@, opt_path_view(e.1)))
    }
}

impl WhichCache {
    pub open spec fn wf(&self) -> bool {
        forall|i: int, j: int| 0 <= i < j < self@.len() ==> self@[i].0 != self@[j].0
    }

    pub fn new() -> (r: Self)
        ensures
            r.wf(),
            forall|n: Seq<char>| cache_lookup(r@, n) is None,
    {
        let r = WhichCache { entries: Vec::new() };
        assert(r@ =~= Seq::<(Seq<char>, Option<Seq<char>>)>::empty());
        r
    }

    /// The remembered result for `name`.
    pub fn get(&self, name: &str) -> (r: Option<Option<String>>)
        requires
            self.wf(),
        ensures
            match r {
                Some(found) => cache_lookup(self@, name@) == Some(opt_path_view(found)),
                None => cache_lookup(self@, name@) is None,
            },
    {
        let mut k: usize = 0;
        while k < self.entries.len()
            invariant
                self.wf(),
                k <= self.entries.len(),
                forall|j: int| 0 <= j < k ==> self@[j].0 != name@,
            decreases self.entries.len() - k,
        {
            if str_eq(self.entries[k].0.as_str(), name) {
                proof {
                    let c = choose|c: int| 0 <= c < self@.len() && self@[c].0 == name@;
                    assert(self@[k as int].0 == name@);
                    if c != k {
                        assert(self@[c].0 == self@[k as int].0);
                    }
                }
                let found = match &self.entries[k].1 {
                    Some(p) => Some(p.clone()),
                    None => None,
                };
                return Some(found);
            }
            assert(self@[k as int].0 == self.entries@[k as int].0@);
            k = k + 1;
        }
        None
    }

    /// Remembers `found` as the result for `name`.
    pub fn insert(&mut self, name: &str, found: Option<String>)
        requires
            old(self).wf(),
        ensures
            final(self).wf(),
            cache_lookup(final(self)@, name@) == Some(opt_path_view(found)),
            forall|n: Seq<char>| n != name@ ==> cache_lookup(final(self)@, n) == cache_lookup(old(self)@, n),
    {
        let ghost before = self@;
        let ghost fv = opt_path_view(found);
        let mut k: usize = 0;
        while k < self.entries.len()
            invariant
                self@ == before,
                before == old(self)@,
                fv == opt_path_view(found),
                old(self).wf(),
                k <= self.entries.len(),
                forall|j: int| 0 <= j < k ==> before[j].0 != name@,
            decreases self.entries.len() - k,
        {
            if str_eq(self.entries[k].0.as_str(), name) {
                assert(before[k as int].0 == name@);
                let ghost ev = self.entries@;
                let item = (name.to_owned(), found);
                assert(item.0@ == name@ && opt_path_view(item.1) == fv);
                self.entries.set(k, item);
                proof {
                    assert(self.entries@ == ev.update(k as int, item));
                    assert forall|q: int| 0 <= q < self@.len() implies #[trigger] self@[q] == before.update(k as int, (name@, fv))[q] by {
                        if q != k {
                            assert(self.entries@[q] == ev[q]);
                        }
                    }
                    assert(self@ =~= before.update(k as int, (name@, fv)));
                    assert(self@[k as int].0 == name@);
                    let after = self@;
                    assert forall|i: int, j: int| 0 <= i < j < after.len() implies after[i].0 != after[j].0 by {
                        assert(after[i].0 == before[i].0 && after[j].0 == before[j].0);
                    }
                    let c = choose|c: int| 0 <= c < after.len() && after[c].0 == name@;
                    if c != k {
                        assert(after[c].0 == after[k as int].0);
                    }
                    assert forall|n: Seq<char>| n != name@ implies cache_lookup(after, n) == cache_lookup(before, n) by {
                        if exists|q: int| 0 <= q < before.len() && before[q].0 == n {
                            let q1 = choose|q: int| 0 <= q < before.len() && before[q].0 == n;
                            assert(after[q1].0 == n);
                            let q2 = choose|q: int| 0 <= q < after.len() && after[q].0 == n;
                            if q1 != q2 {
                                assert(after[q1].0 == after[q2].0);
                            }
                        }
                        if exists|q: int| 0 <= q < after.len() && after[q].0 == n {
                            let q2 = choose|q: int| 0 <= q < after.len() && after[q].0 == n;
                            assert(before[q2].0 == n);
                        }
                    }
                }
                return;
            }
            assert(before[k as int].0 == self.entries@[k as int].0@);
            k = k + 1;
        }
        let ghost ev = self.entries@;
        let item = (name.to_owned(), found);
        assert(item.0@ == name@ && opt_path_view(item.1) == fv);
        self.entries.push(item);
        proof {
            let after = self@;
            assert(self.entries@ == ev.push(item));
            assert forall|q: int| 0 <= q < after.len() implies #[trigger] after[q] == before.push((name@, fv))[q] by {
                if q < before.len() {
                    assert(self.entries@[q] == ev[q]);
                }
            }
            assert(after =~= before.push((name@, fv)));
            assert(after[before.len() as int].0 == name@);
            let c = choose|c: int| 0 <= c < after.len() && after[c].0 == name@;
            assert(c == before.len());
            assert forall|n: Seq<char>| n != name@ implies cache_lookup(after, n) == cache_lookup(before, n) by {
                if exists|q: int| 0 <= q < before.len() && before[q].0 == n {
                    let q1 = choose|q: int| 0 <= q < before.len() && before[q].0 == n;
                    assert(after[q1].0 == n);
                    let q2 = choose|q: int| 0 <= q < after.len() && after[q].0 == n;
                    if q1 != q2 {
                        assert(q2 < before.len());
                        assert(before[q1].0 == before[q2].0);
                    }
                }
                if exists|q: int| 0 <= q < after.len() && after[q].0 == n {
                    let q2 = choose|q: int| 0 <= q < after.len() && after[q].0 == n;
                    assert(q2 < before.len());
                    assert(before[q2].0 == n);
                }
            }
        }
    }
}

} // verus!

verus! {

/// Whether path `p` lies under `base`, component by component.
pub fn path_starts_with(p: &str, base: &str) -> (r: bool)
    ensures
        r == starts_with_path(p@, base@),
{
    let pc = path_components(p);
    let bc = path_components(base);
    crate::path::components_start_with(&pc, &bc)
}

/// The links, of those given as (path, target), whose target lies under
/// `prefix`, in order.
pub open spec fn links_under_spec(links: Seq<(Seq<char>, Seq<char>)>, prefix: Seq<char>) -> Seq<Seq<char>>
    decreases links.len(),
{
    if links.len() == 0 {
        seq![]
    } else if starts_with_path(links.last().1, prefix) {
        links_under_spec(links.drop_last(), prefix).push(links.last().0)
    } else {
        links_under_spec(links.drop_last(), prefix)
    }
}

/// The symlinks to remove because they point under `prefix`.
pub fn links_under(links: &Vec<(String, String)>, prefix: &str) -> (r: Vec<String>)
    ensures
        r@.map_values(|s: String| s@) == links_under_spec(
            links@.map_values(|l: (String, String)| (l.0@, l.1@)),
            prefix@,
        ),
{
    let ghost lv = links@.map_values(|l: (String, String)| (l.0@, l.1@));
    let mut out: Vec<String> = Vec::new();
    let mut i: usize = 0;
    while i < links.len()
        invariant
            i <= links.len(),
            lv == links@.map_values(|l: (String, String)| (l.0@, l.1@)),
            out@.map_values(|s: String| s@) == links_under_spec(lv.subrange(0, i as int), prefix@),
        decreases links.len() - i,
    {
        assert(lv.subrange(0, i + 1).drop_last() == lv.subrange(0, i as int));
        assert(lv.subrange(0, i + 1).last() == (links@[i as int].0@, links@[i as int].1@));
        if path_starts_with(links[i].1.as_str(), prefix) {
            out.push(links[i].0.clone());
            assert(out@.map_values(|s: String| s@) =~= links_under_spec(lv.subrange(0, i as int), prefix@).push(links@[i as int].0@));
        }
        i = i + 1;
    }
    assert(lv.subrange(0, links.len() as int) == lv);
    out
}

/// A character code with ASCII upper case folded to lower case.
pub open spec fn ascii_fold(c: u32) -> u32 {
    if 65 <= c <= 90 {
        (c + 32) as u32
    } else {
        c
    }
}

/// Equality up to ASCII case.
pub open spec fn eq_ignore_ascii_case_spec(a: Seq<char>, b: Seq<char>) -> bool {
    a.len() == b.len() && forall|i: int| 0 <= i < a.len() ==> ascii_fold(a[i] as u32) == ascii_fold(b[i] as u32)
}

fn fold_code(c: u32) -> (r: u32)
    ensures
        r == ascii_fold(c),
{
    if 65 <= c && c <= 90 {
        c + 32
    } else {
        c
    }
}

/// Whether two strings are equal up to ASCII case.
pub fn eq_ignore_ascii_case(a: &str, b: &str) -> (r: bool)
    ensures
        r == eq_ignore_ascii_case_spec(a@, b@),
{
    let n = a.unicode_len();
    if n != b.unicode_len() {
        return false;
    }
    let mut i: usize = 0;
    while i < n
        invariant
            n == a@.len(),
            n == b@.len(),
            i <= n,
            forall|j: int| 0 <= j < i ==> ascii_fold(a@[j] as u32) == ascii_fold(b@[j] as u32),
        decreases n - i,
    {
        if fold_code(a.get_char(i) as u32) != fold_code(b.get_char(i) as u32) {
            return false;
        }
        i = i + 1;
    }
    true
}

/// Whether `name` matches, up to ASCII case, one of `ignored`.
pub open spec fn matches_some(name: Seq<char>, ignored: Seq<Seq<char>>) -> bool {
    exists|j: int| 0 <= j < ignored.len() && eq_ignore_ascii_case_spec(name, ignored[j])
}

/// Whether every entry name matches, up to ASCII case, one of `ignored`.
pub open spec fn only_ignored_spec(names: Seq<Seq<char>>, ignored: Seq<Seq<char>>) -> bool {
    forall|i: int| 0 <= i < names.len() ==> matches_some(#[trigger] names[i], ignored)
}

fn matches_any(name: &str, ignored: &Vec<String>) -> (r: bool)
    ensures
        r == matches_some(name@, ignored@.map_values(|s: String| s@)),
{
    let ghost iv = ignored@.map_values(|s: String| s@);
    let mut j: usize = 0;
    while j < ignored.len()
        invariant
            j <= ignored.len(),
            iv == ignored@.map_values(|s: String| s@),
            forall|t: int| 0 <= t < j ==> !eq_ignore_ascii_case_spec(name@, iv[t]),
        decreases ignored.len() - j,
    {
        if eq_ignore_ascii_case(name, ignored[j].as_str()) {
            assert(eq_ignore_ascii_case_spec(name@, iv[j as int]));
            return true;
        }
        j = j + 1;
    }
    false
}

/// Whether a directory holding entries `names` counts as empty once the
/// `ignored` names are disregarded.
pub fn only_ignored_entries(names: &Vec<String>, ignored: &Vec<String>) -> (r: bool)
    ensures
        r == only_ignored_spec(names@.map_values(|s: String| s@), ignored@.map_values(|s: String| s@)),
{
    let ghost nv = names@.map_values(|s: String| s@);
    let ghost iv = ignored@.map_values(|s: String| s@);
    let mut i: usize = 0;
    while i < names.len()
        invariant
            i <= names.len(),
            nv == names@.map_values(|s: String| s@),
            iv == ignored@.map_values(|s: String| s@),
            forall|k: int| 0 <= k < i ==> matches_some(#[trigger] nv[k], iv),
        decreases names.len() - i,
    {
        let m = matches_any(names[i].as_str(), ignored);
        assert(nv[i as int] == names@[i as int]@);
        if !m {
            return false;
        }
        i = i + 1;
    }
    true
}

} // verus!
