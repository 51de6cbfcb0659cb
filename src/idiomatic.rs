//! Aggregation of the versions that backends read from an idiomatic version
//! file into one request set.
use vstd::prelude::*;

use crate::request::{
    add_all, entries_wf, lemma_request_set_round_trip, parse_specifier, requests_for,
    backends_in_order, lemma_backends_in_order_unique, lemma_requests_for_present, BackendArg, BackendArgView, RequestError, SetEntryView, ToolRequest,
    ToolRequestSet, ToolRequestView, ToolSource, ToolSourceView,
};

verus! {

/// What one backend made of the file: the version strings it read, or `None`
/// when it could not parse the file.
pub type OutcomeView = (BackendArgView, Option<Seq<Seq<char>>>);

pub open spec fn outcome_view(o: (BackendArg, Result<Vec<String>, String>)) -> OutcomeView {
    (
        o.0@,
        match o.1 {
            Ok(vs) => Some(vs@.map_values(|v: String| v@)),
            Err(_) => None,
        },
    )
}

/// The requests for versions `vs` of backend `b`, or the first refusal.
pub open spec fn version_requests(
    b: BackendArgView,
    vs: Seq<Seq<char>>,
    src: ToolSourceView,
) -> Result<Seq<ToolRequestView>, RequestError>
    decreases vs.len(),
{
    if vs.len() == 0 {
        Ok(seq![])
    } else {
        match version_requests(b, vs.drop_last(), src) {
            Err(e) => Err(e),
            Ok(rs) => match parse_specifier(vs.last()) {
                Err(e) => Err(e),
                Ok(k) => Ok(
                    rs.push(ToolRequestView { backend: b, version: vs.last(), kind: k, source: src }),
                ),
            },
        }
    }
}

/// All requests that the backends' outcomes yield, in backend order; a backend
/// that could not parse the file contributes nothing.
pub open spec fn outcome_requests(
    outcomes: Seq<OutcomeView>,
    src: ToolSourceView,
) -> Result<Seq<ToolRequestView>, RequestError>
    decreases outcomes.len(),
{
    if outcomes.len() == 0 {
        Ok(seq![])
    } else {
        match outcome_requests(outcomes.drop_last(), src) {
            Err(e) => Err(e),
            Ok(rs) => match outcomes.last().1 {
                None => Ok(rs),
                Some(vs) => match version_requests(outcomes.last().0, vs, src) {
                    Err(e) => Err(e),
                    Ok(more) => Ok(rs + more),
                },
            },
        }
    }
}

proof fn lemma_version_requests_err(b: BackendArgView, vs: Seq<Seq<char>>, n: int, src: ToolSourceView)
    requires
        0 <= n <= vs.len(),
        version_requests(b, vs.subrange(0, n), src) is Err,
    ensures
        version_requests(b, vs, src) == version_requests(b, vs.subrange(0, n), src),
    decreases vs.len() - n,
{
    if n < vs.len() {
        assert(vs.subrange(0, n + 1).drop_last() == vs.subrange(0, n));
        lemma_version_requests_err(b, vs, n + 1, src);
    } else {
        assert(vs.subrange(0, n) == vs);
    }
}

proof fn lemma_outcome_requests_err(outcomes: Seq<OutcomeView>, n: int, src: ToolSourceView)
    requires
        0 <= n <= outcomes.len(),
        outcome_requests(outcomes.subrange(0, n), src) is Err,
    ensures
        outcome_requests(outcomes, src) == outcome_requests(outcomes.subrange(0, n), src),
    decreases outcomes.len() - n,
{
    if n < outcomes.len() {
        assert(outcomes.subrange(0, n + 1).drop_last() == outcomes.subrange(0, n));
        lemma_outcome_requests_err(outcomes, n + 1, src);
    } else {
        assert(outcomes.subrange(0, n) == outcomes);
    }
}

/// The versions that an idiomatic version file pins, as requests.
#[derive(Debug)]
pub struct IdiomaticVersionFile {
    path: String,
    tools: ToolRequestSet,
}

impl IdiomaticVersionFile {
    pub closed spec fn spec_path(&self) -> Seq<char> {
        self.path@
    }

    pub closed spec fn spec_tools(&self) -> Seq<SetEntryView> {
        self.tools@
    }

    /// A file with no requests yet.
    pub fn init(path: String) -> (r: Self)
        ensures
            r.spec_path() == path@,
            r.spec_tools() == Seq::<SetEntryView>::empty(),
    {
        IdiomaticVersionFile { path, tools: ToolRequestSet::new() }
    }

    /// Builds the file's requests from what each candidate backend read from it,
    /// in the order given. A backend that failed to parse is skipped; a version
    /// string that the grammar refuses fails the whole call.
    pub fn parse(path: String, outcomes: Vec<(BackendArg, Result<Vec<String>, String>)>) -> (r: Result<
        Self,
        RequestError,
    >)
        ensures
            match outcome_requests(
                outcomes@.map_values(|o: (BackendArg, Result<Vec<String>, String>)| outcome_view(o)),
                ToolSourceView::IdiomaticVersionFile(path@),
            ) {
                Ok(rs) => r matches Ok(f) && f.spec_path() == path@ && f.spec_tools() == add_all(
                    seq![],
                    rs,
                    ToolSourceView::IdiomaticVersionFile(path@),
                ),
                Err(e) => r matches Err(e2) && e2 == e,
            },
    {
        let ghost ov = outcomes@.map_values(
            |o: (BackendArg, Result<Vec<String>, String>)| outcome_view(o),
        );
        let ghost src = ToolSourceView::IdiomaticVersionFile(path@);
        let source = ToolSource::IdiomaticVersionFile(path.clone());
        let mut tools = ToolRequestSet::new();
        let ghost mut added: Seq<ToolRequestView> = seq![];
        let mut i: usize = 0;
        while i < outcomes.len()
            invariant
                i <= outcomes.len(),
                ov == outcomes@.map_values(
                    |o: (BackendArg, Result<Vec<String>, String>)| outcome_view(o),
                ),
                source@ == src,
                src == ToolSourceView::IdiomaticVersionFile(path@),
                tools.wf(),
                outcome_requests(ov.subrange(0, i as int), src) == Ok::<
                    Seq<ToolRequestView>,
                    RequestError,
                >(added),
                tools@ == add_all(seq![], added, src),
            decreases outcomes.len() - i,
        {
            assert(ov.subrange(0, i + 1).drop_last() == ov.subrange(0, i as int));
            match &outcomes[i].1 {
                Ok(versions) => {
                    let ghost vsv = versions@.map_values(|v: String| v@);
                    let ghost mut more: Seq<ToolRequestView> = seq![];
                    let mut j: usize = 0;
                    while j < versions.len()
                        invariant
                            j <= versions.len(),
                            i < outcomes.len(),
                            ov == outcomes@.map_values(
                                |o: (BackendArg, Result<Vec<String>, String>)| outcome_view(o),
                            ),
                            outcomes@[i as int].1 == Ok::<Vec<String>, String>(*versions),
                            outcome_requests(ov.subrange(0, i as int), src) == Ok::<
                                Seq<ToolRequestView>,
                                RequestError,
                            >(added),
                            vsv == versions@.map_values(|v: String| v@),
                            source@ == src,
                            src == ToolSourceView::IdiomaticVersionFile(path@),
                            tools.wf(),
                            version_requests(outcomes@[i as int].0@, vsv.subrange(0, j as int), src)
                                == Ok::<Seq<ToolRequestView>, RequestError>(more),
                            tools@ == add_all(seq![], added + more, src),
                        decreases versions.len() - j,
                    {
                        assert(vsv.subrange(0, j + 1).drop_last() == vsv.subrange(0, j as int));
                        let ba = outcomes[i].0.clone();
                        match ToolRequest::new(ba, versions[j].as_str(), source.clone()) {
                            Ok(tr) => {
                                let ghost t = tr@;
                                tools.add_version(tr, &source);
                                proof {
                                    assert((added + more).push(t) == added + more.push(t));
                                    assert((added + more.push(t)).drop_last() == added + more);
                                    more = more.push(t);
                                }
                            },
                            Err(e) => {
                                proof {
                                    let b = outcomes@[i as int].0@;
                                    assert(vsv.subrange(0, j + 1).last() == versions@[j as int]@);
                                    assert(parse_specifier(versions@[j as int]@) == Err::<crate::request::RequestKind, RequestError>(e));
                                    assert(version_requests(b, vsv.subrange(0, j + 1), src) == Err::<Seq<ToolRequestView>, RequestError>(e));
                                    lemma_version_requests_err(b, vsv, j + 1, src);
                                    assert(ov[i as int].1 == Some(vsv));
                                    assert(ov[i as int].0 == b);
                                    assert(ov[i as int] == outcome_view(outcomes@[i as int]));
                                    assert(ov.subrange(0, i + 1).last() == ov[i as int]);
                                    assert(ov.subrange(0, i + 1).drop_last() == ov.subrange(0, i as int));
                                    assert(outcome_requests(ov.subrange(0, i + 1), src) == Err::<Seq<ToolRequestView>, RequestError>(e));
                                    lemma_outcome_requests_err(ov, i + 1, src);
                                }
                                return Err(e);
                            },
                        }
                        j = j + 1;
                    }
                    proof {
                        assert(vsv.subrange(0, versions.len() as int) == vsv);
                        added = added + more;
                    }
                },
                Err(_) => {},
            }
            i = i + 1;
        }
        assert(ov.subrange(0, outcomes.len() as int) == ov);
        Ok(IdiomaticVersionFile { path, tools })
    }

    pub fn get_path(&self) -> (r: &String)
        ensures
            r@ == self.spec_path(),
    {
        &self.path
    }

    /// The provenance of every request of this file.
    pub fn source(&self) -> (r: ToolSource)
        ensures
            r@ == ToolSourceView::IdiomaticVersionFile(self.spec_path()),
    {
        ToolSource::IdiomaticVersionFile(self.path.clone())
    }

    pub fn to_tool_request_set(&self) -> (r: ToolRequestSet)
        ensures
            r@ == self.spec_tools(),
    {
        self.tools.clone()
    }
}

} // verus!

verus! {

proof fn lemma_version_requests_shape(b: BackendArgView, vs: Seq<Seq<char>>, src: ToolSourceView)
    requires
        version_requests(b, vs, src) is Ok,
    ensures
        version_requests(b, vs, src)->Ok_0.len() == vs.len(),
        forall|t: int|
            0 <= t < vs.len() ==> (#[trigger] version_requests(b, vs, src)->Ok_0[t]).backend == b
                && version_requests(b, vs, src)->Ok_0[t].version == vs[t],
    decreases vs.len(),
{
    if vs.len() > 0 {
        lemma_version_requests_shape(b, vs.drop_last(), src);
    }
}

proof fn lemma_requests_for_concat(a: Seq<ToolRequestView>, c: Seq<ToolRequestView>, x: BackendArgView)
    ensures
        requests_for(a + c, x) == requests_for(a, x) + requests_for(c, x),
    decreases c.len(),
{
    if c.len() == 0 {
        assert(a + c == a);
        assert(requests_for(a, x) + requests_for(c, x) == requests_for(a, x));
    } else {
        assert((a + c).drop_last() == a + c.drop_last());
        assert((a + c).last() == c.last());
        lemma_requests_for_concat(a, c.drop_last(), x);
        if c.last().backend == x {
            assert(requests_for(a, x) + requests_for(c.drop_last(), x).push(c.last()) == (
            requests_for(a, x) + requests_for(c.drop_last(), x)).push(c.last()));
        }
    }
}

proof fn lemma_requests_for_uniform(r: Seq<ToolRequestView>, b: BackendArgView, x: BackendArgView)
    requires
        forall|t: int| 0 <= t < r.len() ==> (#[trigger] r[t]).backend == b,
    ensures
        x == b ==> requests_for(r, x) == r,
        x != b ==> requests_for(r, x) == Seq::<ToolRequestView>::empty(),
    decreases r.len(),
{
    if r.len() > 0 {
        lemma_requests_for_uniform(r.drop_last(), b, x);
        assert(r.drop_last().push(r.last()) == r);
    }
}

/// The versions that backend `x` contributes among `outcomes`.
pub open spec fn contributed(outcomes: Seq<OutcomeView>, x: BackendArgView) -> Seq<Seq<char>>
    decreases outcomes.len(),
{
    if outcomes.len() == 0 {
        seq![]
    } else if outcomes.last().0 == x && outcomes.last().1 is Some {
        contributed(outcomes.drop_last(), x) + outcomes.last().1->Some_0
    } else {
        contributed(outcomes.drop_last(), x)
    }
}

/// Every version string that a backend which parsed the file returned is valid.
pub open spec fn all_versions_valid(outcomes: Seq<OutcomeView>) -> bool {
    forall|j: int, t: int|
        0 <= j < outcomes.len() && outcomes[j].1 is Some && 0 <= t < outcomes[j].1->Some_0.len()
            ==> parse_specifier(#[trigger] outcomes[j].1->Some_0[t]) is Ok
}

proof fn lemma_version_requests_ok(b: BackendArgView, vs: Seq<Seq<char>>, src: ToolSourceView)
    requires
        forall|t: int| 0 <= t < vs.len() ==> parse_specifier(#[trigger] vs[t]) is Ok,
    ensures
        version_requests(b, vs, src) is Ok,
    decreases vs.len(),
{
    if vs.len() > 0 {
        lemma_version_requests_ok(b, vs.drop_last(), src);
        assert(parse_specifier(vs[vs.len() - 1]) is Ok);
    }
}

proof fn lemma_outcome_requests_by_backend(outcomes: Seq<OutcomeView>, src: ToolSourceView, x: BackendArgView)
    requires
        all_versions_valid(outcomes),
    ensures
        outcome_requests(outcomes, src) is Ok,
        requests_for(outcome_requests(outcomes, src)->Ok_0, x).map_values(
            |t: ToolRequestView| t.version,
        ) == contributed(outcomes, x),
        forall|t: int| 0 <= t < outcome_requests(outcomes, src)->Ok_0.len() ==> exists|j: int|
            0 <= j < outcomes.len() && outcomes[j].1 is Some && outcomes[j].0 == (#[trigger] outcome_requests(outcomes, src)->Ok_0[t]).backend,
    decreases outcomes.len(),
{
    if outcomes.len() > 0 {
        let pre = outcomes.drop_last();
        assert(all_versions_valid(pre)) by {
            assert forall|j: int, t: int|
                0 <= j < pre.len() && pre[j].1 is Some && 0 <= t < pre[j].1->Some_0.len()
                implies parse_specifier(#[trigger] pre[j].1->Some_0[t]) is Ok by {
                assert(pre[j] == outcomes[j]);
            }
        }
        lemma_outcome_requests_by_backend(pre, src, x);
        let rs = outcome_requests(pre, src)->Ok_0;
        let last = outcomes.last();
        assert(last == outcomes[outcomes.len() - 1]);
        match last.1 {
            None => {
                assert forall|t: int| 0 <= t < rs.len() implies exists|j: int|
                    0 <= j < outcomes.len() && outcomes[j].1 is Some && outcomes[j].0 == (#[trigger] rs[t]).backend by {
                    let j = choose|j: int| 0 <= j < pre.len() && pre[j].1 is Some && pre[j].0 == rs[t].backend;
                    assert(outcomes[j] == pre[j]);
                }
            },
            Some(vs) => {
                assert forall|t: int| 0 <= t < vs.len() implies parse_specifier(#[trigger] vs[t]) is Ok by {
                    assert(outcomes[outcomes.len() - 1].1->Some_0[t] == vs[t]);
                }
                lemma_version_requests_ok(last.0, vs, src);
                lemma_version_requests_shape(last.0, vs, src);
                let more = version_requests(last.0, vs, src)->Ok_0;
                lemma_requests_for_concat(rs, more, x);
                lemma_requests_for_uniform(more, last.0, x);
                if x == last.0 {
                    assert(more.map_values(|t: ToolRequestView| t.version) =~= vs);
                    assert((requests_for(rs, x) + more).map_values(|t: ToolRequestView| t.version) =~= requests_for(rs, x).map_values(|t: ToolRequestView| t.version) + more.map_values(|t: ToolRequestView| t.version));
                } else {
                    assert(requests_for(rs, x) + Seq::<ToolRequestView>::empty() == requests_for(rs, x));
                }
                let all = rs + more;
                assert forall|t: int| 0 <= t < all.len() implies exists|j: int|
                    0 <= j < outcomes.len() && outcomes[j].1 is Some && outcomes[j].0 == (#[trigger] all[t]).backend by {
                    if t < rs.len() {
                        assert(all[t] == rs[t]);
                        let j = choose|j: int| 0 <= j < pre.len() && pre[j].1 is Some && pre[j].0 == rs[t].backend;
                        assert(outcomes[j] == pre[j]);
                    } else {
                        assert(all[t] == more[t - rs.len()]);
                        assert(outcomes[outcomes.len() - 1].0 == all[t].backend);
                    }
                }
            },
        }
    }
}

/// A backend that fails to parse the file contributes no entry, and every
/// backend that parsed it contributes exactly the versions it returned, under
/// its own entry; the failure does not make aggregation fail.
pub proof fn lemma_failed_backend_skipped(outcomes: Seq<OutcomeView>, src: ToolSourceView, i: int)
    requires
        0 <= i < outcomes.len(),
        outcomes[i].1 is None,
        forall|a: int, b: int| 0 <= a < b < outcomes.len() ==> outcomes[a].0 != outcomes[b].0,
        all_versions_valid(outcomes),
    ensures
        outcome_requests(outcomes, src) is Ok,
        forall|k: int|
            0 <= k < add_all(seq![], outcome_requests(outcomes, src)->Ok_0, src).len() ==> (#[trigger] add_all(
                seq![],
                outcome_requests(outcomes, src)->Ok_0,
                src,
            )[k]).0 != outcomes[i].0,
        forall|j: int|
            0 <= j < outcomes.len() && outcomes[j].1 is Some && outcomes[j].1->Some_0.len() > 0
                ==> exists|k: int|
                0 <= k < add_all(seq![], outcome_requests(outcomes, src)->Ok_0, src).len() && (#[trigger] add_all(
                    seq![],
                    outcome_requests(outcomes, src)->Ok_0,
                    src,
                )[k]).0 == outcomes[j].0 && add_all(seq![], outcome_requests(outcomes, src)->Ok_0, src)[k].1.map_values(
                    |t: ToolRequestView| t.version,
                ) == outcomes[j].1->Some_0,
{
    lemma_outcome_requests_by_backend(outcomes, src, outcomes[i].0);
    let rs = outcome_requests(outcomes, src)->Ok_0;
    let s = add_all(seq![], rs, src);
    let d = backends_in_order(rs);
    lemma_request_set_round_trip(rs, src);
    lemma_backends_in_order_unique(rs);
    assert forall|k: int| 0 <= k < s.len() implies (#[trigger] s[k]).0 != outcomes[i].0 by {
        assert(s[k] == (d[k], requests_for(rs, d[k]), src));
        if d[k] == outcomes[i].0 {
            lemma_contributed_single(outcomes, i);
            lemma_requests_for_present(rs, d[k]);
            assert(requests_for(rs, d[k]).map_values(|t: ToolRequestView| t.version).len() > 0);
        }
    }
    assert forall|j: int|
        0 <= j < outcomes.len() && outcomes[j].1 is Some && outcomes[j].1->Some_0.len() > 0
        implies exists|k: int|
            0 <= k < s.len() && (#[trigger] s[k]).0 == outcomes[j].0 && s[k].1.map_values(
                |t: ToolRequestView| t.version,
            ) == outcomes[j].1->Some_0 by {
        let x = outcomes[j].0;
        lemma_outcome_requests_by_backend(outcomes, src, x);
        lemma_contributed_single(outcomes, j);
        let r = requests_for(rs, x);
        assert(r.map_values(|t: ToolRequestView| t.version).len() > 0);
        assert(r.len() > 0);
        lemma_requests_for_member(rs, x, 0);
        let t = choose|t: int| 0 <= t < rs.len() && rs[t].backend == x;
        assert(d.contains(rs[t].backend));
        let k = choose|k: int| 0 <= k < d.len() && d[k] == x;
        assert(s[k] == (d[k], requests_for(rs, d[k]), src));
    }
}

proof fn lemma_requests_for_member(trs: Seq<ToolRequestView>, b: BackendArgView, t: int)
    requires
        0 <= t < requests_for(trs, b).len(),
    ensures
        exists|u: int| 0 <= u < trs.len() && trs[u].backend == b,
    decreases trs.len(),
{
    if trs.len() > 0 {
        if trs.last().backend == b {
            assert(trs[trs.len() - 1].backend == b);
        } else {
            lemma_requests_for_member(trs.drop_last(), b, t);
            let u = choose|u: int| 0 <= u < trs.len() - 1 && trs.drop_last()[u].backend == b;
            assert(trs[u] == trs.drop_last()[u]);
        }
    }
}

/// With distinct backends, backend `j` contributes exactly its own outcome.
proof fn lemma_contributed_single(outcomes: Seq<OutcomeView>, j: int)
    requires
        0 <= j < outcomes.len(),
        forall|a: int, b: int| 0 <= a < b < outcomes.len() ==> outcomes[a].0 != outcomes[b].0,
    ensures
        contributed(outcomes, outcomes[j].0) == match outcomes[j].1 {
            Some(vs) => vs,
            None => Seq::<Seq<char>>::empty(),
        },
    decreases outcomes.len(),
{
    let pre = outcomes.drop_last();
    if j == outcomes.len() - 1 {
        lemma_contributed_absent(pre, outcomes[j].0);
        assert forall|a: int| 0 <= a < pre.len() implies pre[a].0 != outcomes[j].0 by {
            assert(pre[a] == outcomes[a]);
        }
        lemma_contributed_absent(pre, outcomes[j].0);
        if outcomes[j].1 is Some {
            assert(Seq::<Seq<char>>::empty() + outcomes[j].1->Some_0 == outcomes[j].1->Some_0);
        }
    } else {
        assert(pre[j] == outcomes[j]);
        lemma_contributed_single(pre, j);
        assert(outcomes.last() == outcomes[outcomes.len() - 1]);
    }
}

proof fn lemma_contributed_absent(outcomes: Seq<OutcomeView>, x: BackendArgView)
    ensures
        (forall|a: int| 0 <= a < outcomes.len() ==> outcomes[a].0 != x) ==> contributed(outcomes, x)
            == Seq::<Seq<char>>::empty(),
    decreases outcomes.len(),
{
    if outcomes.len() > 0 {
        lemma_contributed_absent(outcomes.drop_last(), x);
        if forall|a: int| 0 <= a < outcomes.len() ==> outcomes[a].0 != x {
            assert(outcomes.last() == outcomes[outcomes.len() - 1]);
            assert forall|a: int| 0 <= a < outcomes.len() - 1 implies outcomes.drop_last()[a].0 != x by {
                assert(outcomes.drop_last()[a] == outcomes[a]);
            }
        }
    }
}

/// A file that no backend recognises aggregates to an empty request set,
/// without error.
pub proof fn lemma_no_candidates_empty(src: ToolSourceView)
    ensures
        outcome_requests(seq![], src) == Ok::<Seq<ToolRequestView>, RequestError>(seq![]),
        add_all(seq![], seq![], src) == Seq::<SetEntryView>::empty(),
{
}

} // verus!

verus! {

/// The backends whose list of idiomatic file names was read and holds `name`,
/// in the order given.
pub open spec fn candidates_spec(listings: Seq<OutcomeView>, name: Seq<char>) -> Seq<BackendArgView>
    decreases listings.len(),
{
    if listings.len() == 0 {
        seq![]
    } else {
        let rest = candidates_spec(listings.drop_last(), name);
        match listings.last().1 {
            Some(names) => if names.contains(name) {
                rest.push(listings.last().0)
            } else {
                rest
            },
            None => rest,
        }
    }
}

fn lists_name(names: &Vec<String>, name: &String) -> (r: bool)
    ensures
        r == names@.map_values(|s: String| s@).contains(name@),
{
    let ghost nv = names@.map_values(|s: String| s@);
    let mut i: usize = 0;
    while i < names.len()
        invariant
            i <= names.len(),
            nv == names@.map_values(|s: String| s@),
            forall|j: int| 0 <= j < i ==> nv[j] != name@,
        decreases names.len() - i,
    {
        if names[i] == *name {
            assert(nv[i as int] == name@);
            return true;
        }
        i = i + 1;
    }
    false
}

/// The backends that take the file at `path` as theirs: those whose list of
/// idiomatic file names holds its base name. A backend whose list could not
/// be read is not a candidate.
pub fn candidate_backends(path: &str, listings: &Vec<(BackendArg, Result<Vec<String>, String>)>) -> (r: Vec<
    BackendArg,
>)
    requires
        crate::archive::file_name_of(path@) is Some,
    ensures
        r@.map_values(|b: BackendArg| b@) == candidates_spec(
            listings@.map_values(|o: (BackendArg, Result<Vec<String>, String>)| outcome_view(o)),
            crate::archive::file_name_of(path@)->Some_0,
        ),
{
    let name = match crate::archive::file_name(path) {
        Some(n) => n,
        None => {
            proof {
                assert(false);
            }
            String::new()
        },
    };
    let ghost lv = listings@.map_values(|o: (BackendArg, Result<Vec<String>, String>)| outcome_view(o));
    let mut out: Vec<BackendArg> = Vec::new();
    let mut i: usize = 0;
    while i < listings.len()
        invariant
            i <= listings.len(),
            lv == listings@.map_values(|o: (BackendArg, Result<Vec<String>, String>)| outcome_view(o)),
            out@.map_values(|b: BackendArg| b@) == candidates_spec(lv.subrange(0, i as int), name@),
        decreases listings.len() - i,
    {
        assert(lv.subrange(0, i + 1).drop_last() == lv.subrange(0, i as int));
        assert(lv.subrange(0, i + 1).last() == outcome_view(listings@[i as int]));
        match &listings[i].1 {
            Ok(names) => {
                if lists_name(names, &name) {
                    out.push(listings[i].0.clone());
                    assert(out@.map_values(|b: BackendArg| b@) =~= candidates_spec(lv.subrange(0, i as int), name@).push(listings@[i as int].0@));
                }
            },
            Err(_) => {},
        }
        i = i + 1;
    }
    assert(lv.subrange(0, listings.len() as int) == lv);
    out
}

} // verus!
