//! The request model: backend identities, provenance tags, single version
//! requests and the ordered, per-backend collection of requests.
use vstd::prelude::*;

verus! {

/// How ambiguity between several providers of one short name is settled.
#[derive(PartialEq, Eq, Structural, Clone, Copy, Debug)]
pub struct BackendResolution {
    pub lockfile: bool,
}

impl BackendResolution {
    pub fn new(lockfile: bool) -> (r: Self)
        ensures
            r.lockfile == lockfile,
    {
        BackendResolution { lockfile }
    }
}

/// What identifies a backend in contracts: its short name and its qualifier.
pub struct BackendArgView {
    pub short: Seq<char>,
    pub qualifier: Option<Seq<char>>,
}

pub open spec fn opt_str_view(o: Option<String>) -> Option<Seq<char>> {
    match o {
        Some(s) => Some(s@),
        None => None,
    }
}

/// Identity of a tool family.
#[derive(Debug)]
pub struct BackendArg {
    pub short: String,
    pub qualifier: Option<String>,
    pub resolution: BackendResolution,
}

impl View for BackendArg {
    type V = BackendArgView;

    open spec fn view(&self) -> BackendArgView {
        BackendArgView { short: self.short@, qualifier: opt_str_view(self.qualifier) }
    }
}

fn clone_opt_string(o: &Option<String>) -> (r: Option<String>)
    ensures
        r == *o,
{
    match o {
        Some(s) => Some(s.clone()),
        None => None,
    }
}

fn opt_string_eq(a: &Option<String>, b: &Option<String>) -> (r: bool)
    ensures
        r == (opt_str_view(*a) == opt_str_view(*b)),
{
    match (a, b) {
        (Some(x), Some(y)) => *x == *y,
        (None, None) => true,
        _ => false,
    }
}

impl Clone for BackendArg {
    fn clone(&self) -> (r: Self)
        ensures
            r == *self,
    {
        BackendArg {
            short: self.short.clone(),
            qualifier: clone_opt_string(&self.qualifier),
            resolution: self.resolution,
        }
    }
}

impl BackendArg {
    pub fn new(short: String, qualifier: Option<String>, resolution: BackendResolution) -> (r: Self)
        ensures
            r.short == short,
            r.qualifier == qualifier,
            r.resolution == resolution,
    {
        BackendArg { short, qualifier, resolution }
    }

    /// Whether two backend arguments name the same tool family.
    pub fn same_backend(&self, other: &BackendArg) -> (r: bool)
        ensures
            r == (self@ == other@),
    {
        let a = self.short == other.short;
        let b = opt_string_eq(&self.qualifier, &other.qualifier);
        proof {
            if a && b {
                assert(self@ == other@);
            }
        }
        a && b
    }
}

} // verus!

verus! {

/// Provenance of a version declaration.
#[derive(Debug)]
pub enum ToolSource {
    IdiomaticVersionFile(String),
    ConfigFile(String),
    Argument,
    Environment(String),
}

pub enum ToolSourceView {
    IdiomaticVersionFile(Seq<char>),
    ConfigFile(Seq<char>),
    Argument,
    Environment(Seq<char>),
}

impl View for ToolSource {
    type V = ToolSourceView;

    open spec fn view(&self) -> ToolSourceView {
        match self {
            ToolSource::IdiomaticVersionFile(p) => ToolSourceView::IdiomaticVersionFile(p@),
            ToolSource::ConfigFile(p) => ToolSourceView::ConfigFile(p@),
            ToolSource::Argument => ToolSourceView::Argument,
            ToolSource::Environment(k) => ToolSourceView::Environment(k@),
        }
    }
}

impl Clone for ToolSource {
    fn clone(&self) -> (r: Self)
        ensures
            r == *self,
    {
        match self {
            ToolSource::IdiomaticVersionFile(p) => ToolSource::IdiomaticVersionFile(p.clone()),
            ToolSource::ConfigFile(p) => ToolSource::ConfigFile(p.clone()),
            ToolSource::Argument => ToolSource::Argument,
            ToolSource::Environment(k) => ToolSource::Environment(k.clone()),
        }
    }
}

/// What a version specifier asks for.
#[derive(PartialEq, Eq, Structural, Clone, Copy, Debug)]
pub enum RequestKind {
    Version,
    System,
    Prefix,
    Ref,
    Path,
    Sub,
}

/// Why a version specifier was refused.
#[derive(PartialEq, Eq, Structural, Clone, Copy, Debug)]
pub enum RequestError {
    /// The specifier is the empty string.
    Empty,
    /// The text before the first `:` is not a known request kind.
    UnknownKind,
}

/// Index of the first `:` in `s`, if there is one.
pub open spec fn first_colon(s: Seq<char>) -> Option<int> {
    if exists|i: int| 0 <= i < s.len() && s[i] == ':' {
        Some(choose|i: int| 0 <= i < s.len() && s[i] == ':' && forall|j: int| 0 <= j < i ==> s[j] != ':')
    } else {
        None
    }
}

/// The kind named by the text in front of a `:`.
pub open spec fn kind_of_head(head: Seq<char>) -> Option<RequestKind> {
    if head == "ref"@ || head == "tag"@ || head == "branch"@ || head == "rev"@ {
        Some(RequestKind::Ref)
    } else if head == "prefix"@ {
        Some(RequestKind::Prefix)
    } else if head == "path"@ {
        Some(RequestKind::Path)
    } else if head.len() >= 4 && head.subrange(0, 4) == "sub-"@ {
        Some(RequestKind::Sub)
    } else {
        None
    }
}

/// The version grammar: what a specifier asks for, or why it is refused.
pub open spec fn parse_specifier(s: Seq<char>) -> Result<RequestKind, RequestError> {
    if s.len() == 0 {
        Err(RequestError::Empty)
    } else {
        match first_colon(s) {
            None => if s == "system"@ {
                Ok(RequestKind::System)
            } else {
                Ok(RequestKind::Version)
            },
            Some(i) => match kind_of_head(s.subrange(0, i)) {
                Some(k) => Ok(k),
                None => Err(RequestError::UnknownKind),
            },
        }
    }
}

/// Position of the first occurrence of `c` in `s`.
pub fn find_char(s: &str, c: char) -> (r: Option<usize>)
    ensures
        match r {
            Some(i) => i < s@.len() && s@[i as int] == c && forall|j: int| 0 <= j < i ==> s@[j] != c,
            None => forall|j: int| 0 <= j < s@.len() ==> s@[j] != c,
        },
{
    let n = s.unicode_len();
    let mut i: usize = 0;
    while i < n
        invariant
            n == s@.len(),
            i <= n,
            forall|j: int| 0 <= j < i ==> s@[j] != c,
        decreases n - i,
    {
        if s.get_char(i) == c {
            return Some(i);
        }
        i = i + 1;
    }
    None
}

/// Whether `a` holds exactly the characters of `b`.
pub fn str_eq(a: &str, b: &str) -> (r: bool)
    ensures
        r == (a@ == b@),
{
    a.to_owned() == b.to_owned()
}

fn head_kind(head: &str) -> (r: Option<RequestKind>)
    ensures
        r == kind_of_head(head@),
{
    if str_eq(head, "ref") || str_eq(head, "tag") || str_eq(head, "branch") || str_eq(head, "rev") {
        Some(RequestKind::Ref)
    } else if str_eq(head, "prefix") {
        Some(RequestKind::Prefix)
    } else if str_eq(head, "path") {
        Some(RequestKind::Path)
    } else if head.unicode_len() >= 4 && str_eq(head.substring_char(0, 4), "sub-") {
        Some(RequestKind::Sub)
    } else {
        None
    }
}

/// Applies the version grammar to a specifier.
pub fn classify_specifier(s: &str) -> (r: Result<RequestKind, RequestError>)
    ensures
        r == parse_specifier(s@),
{
    if s.unicode_len() == 0 {
        return Err(RequestError::Empty);
    }
    match find_char(s, ':') {
        None => {
            if str_eq(s, "system") {
                Ok(RequestKind::System)
            } else {
                Ok(RequestKind::Version)
            }
        },
        Some(i) => {
            proof {
                let k = choose|k: int|
                    0 <= k < s@.len() && s@[k] == ':' && forall|j: int| 0 <= j < k ==> s@[j] != ':';
                assert(k == i as int);
            }
            match head_kind(s.substring_char(0, i)) {
                Some(k) => Ok(k),
                None => Err(RequestError::UnknownKind),
            }
        },
    }
}

} // verus!

verus! {

pub struct ToolRequestView {
    pub backend: BackendArgView,
    pub version: Seq<char>,
    pub kind: RequestKind,
    pub source: ToolSourceView,
}

/// One declared want: a backend, a version specifier and where it came from.
#[derive(Debug)]
pub struct ToolRequest {
    backend: BackendArg,
    version: String,
    kind: RequestKind,
    source: ToolSource,
}

impl View for ToolRequest {
    type V = ToolRequestView;

    closed spec fn view(&self) -> ToolRequestView {
        ToolRequestView {
            backend: self.backend@,
            version: self.version@,
            kind: self.kind,
            source: self.source@,
        }
    }
}

impl Clone for ToolRequest {
    fn clone(&self) -> (r: Self)
        ensures
            r@ == self@,
    {
        ToolRequest {
            backend: self.backend.clone(),
            version: self.version.clone(),
            kind: self.kind,
            source: self.source.clone(),
        }
    }
}

impl ToolRequest {
    /// Builds a request; the specifier must satisfy the version grammar.
    pub fn new(backend: BackendArg, version: &str, source: ToolSource) -> (r: Result<
        ToolRequest,
        RequestError,
    >)
        ensures
            match parse_specifier(version@) {
                Ok(k) => r matches Ok(tr) && tr@ == (ToolRequestView {
                    backend: backend@,
                    version: version@,
                    kind: k,
                    source: source@,
                }),
                Err(e) => r == Err::<ToolRequest, RequestError>(e),
            },
    {
        match classify_specifier(version) {
            Ok(kind) => Ok(ToolRequest { backend, version: version.to_owned(), kind, source }),
            Err(e) => Err(e),
        }
    }

    pub fn ba(&self) -> (r: &BackendArg)
        ensures
            r@ == self@.backend,
    {
        &self.backend
    }

    /// The specifier as it was declared.
    pub fn version(&self) -> (r: String)
        ensures
            r@ == self@.version,
    {
        self.version.clone()
    }

    pub fn kind(&self) -> (r: RequestKind)
        ensures
            r == self@.kind,
    {
        self.kind
    }

    pub fn source(&self) -> (r: &ToolSource)
        ensures
            r@ == self@.source,
    {
        &self.source
    }
}

/// One backend's requests in a set, in the order they were added, with the
/// source that first declared the backend.
pub type SetEntryView = (BackendArgView, Seq<ToolRequestView>, ToolSourceView);

/// Index of the entry for backend `b`, if the set holds one.
pub open spec fn entry_index(entries: Seq<SetEntryView>, b: BackendArgView) -> Option<int> {
    if exists|k: int| 0 <= k < entries.len() && entries[k].0 == b {
        Some(choose|k: int| 0 <= k < entries.len() && entries[k].0 == b)
    } else {
        None
    }
}

/// The entries after adding request `tr` declared by `src`: appended to its
/// backend's list, or to a new entry at the end.
pub open spec fn add_request(
    entries: Seq<SetEntryView>,
    tr: ToolRequestView,
    src: ToolSourceView,
) -> Seq<SetEntryView> {
    match entry_index(entries, tr.backend) {
        Some(k) => entries.update(k, (entries[k].0, entries[k].1.push(tr), entries[k].2)),
        None => entries.push((tr.backend, seq![tr], src)),
    }
}

/// Well-formed entries: one per backend, each non-empty and holding only that
/// backend's requests.
pub open spec fn entries_wf(entries: Seq<SetEntryView>) -> bool {
    &&& forall|i: int, j: int|
        0 <= i < j < entries.len() ==> (#[trigger] entries[i]).0 != (#[trigger] entries[j]).0
    &&& forall|i: int| 0 <= i < entries.len() ==> (#[trigger] entries[i]).1.len() > 0
    &&& forall|i: int, t: int|
        0 <= i < entries.len() && 0 <= t < entries[i].1.len() ==> (#[trigger] entries[i].1[t]).backend
            == entries[i].0
}

/// Version requests grouped by backend, in order of first declaration, each
/// backend's requests in insertion order.
#[derive(Debug)]
pub struct ToolRequestSet {
    entries: Vec<(BackendArg, Vec<ToolRequest>, ToolSource)>,
}

pub open spec fn entry_view(e: (BackendArg, Vec<ToolRequest>, ToolSource)) -> SetEntryView {
    (e.0@, e.1@.map_values(|t: ToolRequest| t@), e.2@)
}

impl View for ToolRequestSet {
    type V = Seq<SetEntryView>;

    closed spec fn view(&self) -> Seq<SetEntryView> {
        self.entries@.map_values(|e: (BackendArg, Vec<ToolRequest>, ToolSource)| entry_view(e))
    }
}

fn clone_requests(v: &Vec<ToolRequest>) -> (r: Vec<ToolRequest>)
    ensures
        r@.map_values(|t: ToolRequest| t@) == v@.map_values(|t: ToolRequest| t@),
{
    let mut out: Vec<ToolRequest> = Vec::new();
    let mut i: usize = 0;
    while i < v.len()
        invariant
            i <= v.len(),
            out.len() == i,
            forall|j: int| 0 <= j < i ==> (#[trigger] out@[j])@ == v@[j]@,
        decreases v.len() - i,
    {
        out.push(v[i].clone());
        i = i + 1;
    }
    assert(out@.map_values(|t: ToolRequest| t@) =~= v@.map_values(|t: ToolRequest| t@));
    out
}

impl Clone for ToolRequestSet {
    fn clone(&self) -> (r: Self)
        ensures
            r@ == self@,
    {
        let mut out: Vec<(BackendArg, Vec<ToolRequest>, ToolSource)> = Vec::new();
        let mut i: usize = 0;
        while i < self.entries.len()
            invariant
                i <= self.entries.len(),
                out.len() == i,
                forall|j: int| 0 <= j < i ==> entry_view(#[trigger] out@[j]) == self@[j],
            decreases self.entries.len() - i,
        {
            let e = &self.entries[i];
            let item = (e.0.clone(), clone_requests(&e.1), e.2.clone());
            assert(entry_view(item) == entry_view(*e));
            out.push(item);
            i = i + 1;
        }
        let r = ToolRequestSet { entries: out };
        assert(r@ =~= self@);
        r
    }
}

impl ToolRequestSet {
    pub open spec fn wf(&self) -> bool {
        entries_wf(self@)
    }

    pub fn new() -> (r: Self)
        ensures
            r@ == Seq::<SetEntryView>::empty(),
            r.wf(),
    {
        ToolRequestSet { entries: Vec::new() }
    }

    /// Number of backends that have requests.
    pub fn len(&self) -> (r: usize)
        ensures
            r == self@.len(),
    {
        self.entries.len()
    }

    pub fn is_empty(&self) -> (r: bool)
        ensures
            r == (self@.len() == 0),
    {
        self.entries.len() == 0
    }

    /// Adds a request; `source` is kept only when it is the first for the backend.
    pub fn add_version(&mut self, tr: ToolRequest, source: &ToolSource)
        requires
            old(self).wf(),
        ensures
            final(self).wf(),
            final(self)@ == add_request(old(self)@, tr@, source@),
    {
        let ghost before = self@;
        assert(before == old(self)@);
        let ghost before_vec = self.entries@;
        let mut k: usize = 0;
        while k < self.entries.len()
            invariant
                self@ == before,
                before == old(self)@,
                self.entries@ == before_vec,
                entries_wf(before),
                k <= self.entries.len(),
                forall|j: int| 0 <= j < k ==> before[j].0 != tr@.backend,
            decreases self.entries.len() - k,
        {
            assert(before[k as int] == entry_view(self.entries@[k as int]));
            if self.entries[k].0.same_backend(tr.ba()) {
                proof {
                    assert(before[k as int].0 == tr@.backend);
                    let c = choose|c: int| 0 <= c < before.len() && before[c].0 == tr@.backend;
                    if c != k as int {
                        assert(before[c].0 == before[k as int].0);
                    }
                    assert(c == k as int);
                }
                let mut e = self.entries.remove(k);
                let ghost old_reqs = e.1@;
                e.1.push(tr);
                proof {
                    assert(e.1@.map_values(|t: ToolRequest| t@) =~= old_reqs.map_values(
                        |t: ToolRequest| t@,
                    ).push(tr@));
                }
                let ghost new_entry = e;
                self.entries.insert(k, e);
                proof {
                    assert(self.entries@ =~= before_vec.update(k as int, new_entry));
                    let after = add_request(before, tr@, source@);
                    assert forall|j: int| 0 <= j < self@.len() implies self@[j] == after[j] by {
                        if j != k as int {
                            assert(self.entries@[j] == before_vec[j]);
                        }
                    }
                    assert(self@ =~= after);
                    assert forall|i: int, t: int|
                        0 <= i < self@.len() && 0 <= t < self@[i].1.len() implies (
                        #[trigger] self@[i].1[t]).backend == self@[i].0 by {
                        if i == k as int && t < self@[i].1.len() - 1 {
                            assert(self@[i].1[t] == before[i].1[t]);
                        }
                    }
                }
                return;
            }
            k = k + 1;
        }
        let ba = tr.ba().clone();
        let mut list = Vec::new();
        list.push(tr);
        let ghost new_list = list@;
        self.entries.push((ba, list, source.clone()));
        proof {
            assert(new_list.map_values(|t: ToolRequest| t@) =~= seq![tr@]);
            assert(entry_index(before, tr@.backend) is None);
            assert(self@ =~= add_request(before, tr@, source@));
        }
    }

    /// Every backend with its requests and the source that declared it first.
    pub fn entries(&self) -> (r: Vec<(BackendArg, Vec<ToolRequest>, ToolSource)>)
        ensures
            r@.map_values(|e: (BackendArg, Vec<ToolRequest>, ToolSource)| entry_view(e)) == self@,
    {
        let c = self.clone();
        c.entries
    }
}

} // verus!

verus! {

/// The set built by adding `trs` in order to `entries`, all declared by `src`.
pub open spec fn add_all(
    entries: Seq<SetEntryView>,
    trs: Seq<ToolRequestView>,
    src: ToolSourceView,
) -> Seq<SetEntryView>
    decreases trs.len(),
{
    if trs.len() == 0 {
        entries
    } else {
        add_request(add_all(entries, trs.drop_last(), src), trs.last(), src)
    }
}

/// The requests of `trs` that name backend `b`, in their order.
pub open spec fn requests_for(trs: Seq<ToolRequestView>, b: BackendArgView) -> Seq<ToolRequestView>
    decreases trs.len(),
{
    if trs.len() == 0 {
        seq![]
    } else if trs.last().backend == b {
        requests_for(trs.drop_last(), b).push(trs.last())
    } else {
        requests_for(trs.drop_last(), b)
    }
}

/// The backends named in `trs`, each once, in order of first appearance.
pub open spec fn backends_in_order(trs: Seq<ToolRequestView>) -> Seq<BackendArgView>
    decreases trs.len(),
{
    if trs.len() == 0 {
        seq![]
    } else if backends_in_order(trs.drop_last()).contains(trs.last().backend) {
        backends_in_order(trs.drop_last())
    } else {
        backends_in_order(trs.drop_last()).push(trs.last().backend)
    }
}

proof fn lemma_requests_for_absent(trs: Seq<ToolRequestView>, b: BackendArgView)
    requires
        !backends_in_order(trs).contains(b),
    ensures
        requests_for(trs, b) == Seq::<ToolRequestView>::empty(),
    decreases trs.len(),
{
    if trs.len() > 0 {
        let d = backends_in_order(trs.drop_last());
        if !d.contains(trs.last().backend) {
            assert(backends_in_order(trs) == d.push(trs.last().backend));
            assert(backends_in_order(trs).last() == trs.last().backend);
        }
        if d.contains(b) {
            assert(backends_in_order(trs).contains(b)) by {
                let i = choose|i: int| 0 <= i < d.len() && d[i] == b;
                if !d.contains(trs.last().backend) {
                    assert(d.push(trs.last().backend)[i] == b);
                }
            }
        }
        lemma_requests_for_absent(trs.drop_last(), b);
    }
}

pub proof fn lemma_backends_in_order_unique(trs: Seq<ToolRequestView>)
    ensures
        forall|i: int, j: int|
            0 <= i < j < backends_in_order(trs).len() ==> backends_in_order(trs)[i]
                != backends_in_order(trs)[j],
        forall|i: int| 0 <= i < trs.len() ==> backends_in_order(trs).contains(#[trigger] trs[i].backend),
    decreases trs.len(),
{
    if trs.len() > 0 {
        let pre = trs.drop_last();
        lemma_backends_in_order_unique(pre);
        let d = backends_in_order(pre);
        assert forall|i: int| 0 <= i < trs.len() implies backends_in_order(trs).contains(
            #[trigger] trs[i].backend,
        ) by {
            if i < trs.len() - 1 {
                assert(pre[i] == trs[i]);
                assert(d.contains(pre[i].backend));
                let k = choose|k: int| 0 <= k < d.len() && d[k] == pre[i].backend;
                if !d.contains(trs.last().backend) {
                    assert(backends_in_order(trs)[k] == trs[i].backend);
                }
            } else if !d.contains(trs.last().backend) {
                assert(backends_in_order(trs)[d.len() as int] == trs[i].backend);
            }
        }
    }
}

/// Adding requests one after another and reading the set back gives every
/// backend once, in order of first declaration, each with exactly its own
/// requests in the order they were added, under the source that declared them.
pub proof fn lemma_request_set_round_trip(trs: Seq<ToolRequestView>, src: ToolSourceView)
    ensures
        entries_wf(add_all(seq![], trs, src)),
        add_all(seq![], trs, src).len() == backends_in_order(trs).len(),
        forall|k: int|
            0 <= k < backends_in_order(trs).len() ==> #[trigger] add_all(seq![], trs, src)[k] == (
            backends_in_order(trs)[k],
            requests_for(trs, backends_in_order(trs)[k]),
            src,
        ),
    decreases trs.len(),
{
    lemma_backends_in_order_unique(trs);
    if trs.len() > 0 {
        let pre = trs.drop_last();
        let t = trs.last();
        let b = t.backend;
        lemma_request_set_round_trip(pre, src);
        lemma_backends_in_order_unique(pre);
        let p = add_all(seq![], pre, src);
        let d = backends_in_order(pre);
        let s = add_all(seq![], trs, src);
        assert(s == add_request(p, t, src));
        if d.contains(b) {
            let k = choose|k: int| 0 <= k < d.len() && d[k] == b;
            assert(p[k].0 == b);
            let c = choose|c: int| 0 <= c < p.len() && p[c].0 == b;
            assert(p[c] == (d[c], requests_for(pre, d[c]), src));
            assert(c == k);
            assert(s == p.update(k, (p[k].0, p[k].1.push(t), p[k].2)));
            assert(backends_in_order(trs) == d);
            assert forall|j: int| 0 <= j < d.len() implies #[trigger] s[j] == (
                d[j],
                requests_for(trs, d[j]),
                src,
            ) by {
                assert(p[j] == (d[j], requests_for(pre, d[j]), src));
            }
        } else {
            assert(entry_index(p, b) is None) by {
                if exists|c: int| 0 <= c < p.len() && p[c].0 == b {
                    let c = choose|c: int| 0 <= c < p.len() && p[c].0 == b;
                    assert(p[c] == (d[c], requests_for(pre, d[c]), src));
                    assert(d.contains(b));
                }
            }
            lemma_requests_for_absent(pre, b);
            assert(s == p.push((b, seq![t], src)));
            let d2 = backends_in_order(trs);
            assert(d2 == d.push(b));
            assert(requests_for(trs, b) =~= seq![t]);
            assert forall|j: int| 0 <= j < d2.len() implies #[trigger] s[j] == (
                d2[j],
                requests_for(trs, d2[j]),
                src,
            ) by {
                if j < d.len() {
                    assert(p[j] == (d[j], requests_for(pre, d[j]), src));
                    assert(d[j] != b);
                }
            }
        }
        let d2 = backends_in_order(trs);
        assert forall|i: int, t2: int|
            0 <= i < s.len() && 0 <= t2 < s[i].1.len() implies (#[trigger] s[i].1[t2]).backend
            == s[i].0 by {
            lemma_requests_for_backend(trs, d2[i]);
        }
        assert forall|i: int| 0 <= i < s.len() implies (#[trigger] s[i]).1.len() > 0 by {
            lemma_requests_for_present(trs, d2[i]);
        }
    }
}

proof fn lemma_requests_for_backend(trs: Seq<ToolRequestView>, b: BackendArgView)
    ensures
        forall|t: int| 0 <= t < requests_for(trs, b).len() ==> (#[trigger] requests_for(trs, b)[t]).backend == b,
    decreases trs.len(),
{
    if trs.len() > 0 {
        lemma_requests_for_backend(trs.drop_last(), b);
    }
}

pub proof fn lemma_requests_for_present(trs: Seq<ToolRequestView>, b: BackendArgView)
    requires
        backends_in_order(trs).contains(b),
    ensures
        requests_for(trs, b).len() > 0,
    decreases trs.len(),
{
    if trs.len() > 0 && trs.last().backend != b {
        let d = backends_in_order(trs.drop_last());
        if !d.contains(trs.last().backend) {
            let i = choose|i: int| 0 <= i < d.len() + 1 && d.push(trs.last().backend)[i] == b;
            assert(d[i] == b);
        }
        lemma_requests_for_present(trs.drop_last(), b);
    }
}

} // verus!
