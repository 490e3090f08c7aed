//! Request idempotency and the observation-only gate of commands.

use vstd::prelude::*;

verus! {

/// The results of the commands already executed, by request id; a request
/// id is recorded at most once.
pub struct RequestLog<V> {
    entries: Vec<(String, V)>,
}

impl<V> RequestLog<V> {
    /// No two entries share a request id.
    pub closed spec fn wf(&self) -> bool {
        forall|i: int, j: int|
            0 <= i < j < self.entries@.len() ==> #[trigger] self.entries@[i].0@ != #[trigger] self.entries@[j].0@
    }

    /// The recorded results, by request id.
    pub closed spec fn results(&self) -> Map<Seq<char>, V> {
        Map::new(
            |k: Seq<char>| exists|i: int| 0 <= i < self.entries@.len() && self.entries@[i].0@ == k,
            |k: Seq<char>| {
                let i = choose|i: int| 0 <= i < self.entries@.len() && self.entries@[i].0@ == k;
                self.entries@[i].1
            },
        )
    }

    pub fn new() -> (log: Self)
        ensures
            log.wf(),
            log.results() == Map::<Seq<char>, V>::empty(),
    {
        let log = RequestLog { entries: Vec::new() };
        assert(log.results() =~= Map::<Seq<char>, V>::empty());
        log
    }

    fn position(&self, request_id: &String) -> (r: Option<usize>)
        requires
            self.wf(),
        ensures
            match r {
                Some(i) => i < self.entries@.len() && self.entries@[i as int].0@ == request_id@,
                None => forall|i: int| 0 <= i < self.entries@.len() ==> self.entries@[i].0@ != request_id@,
            },
    {
        let mut i: usize = 0;
        while i < self.entries.len()
            invariant
                i <= self.entries.len(),
                forall|j: int| 0 <= j < i ==> self.entries@[j].0@ != request_id@,
            decreases self.entries.len() - i,
        {
            if self.entries[i].0 == *request_id {
                return Some(i);
            }
            i = i + 1;
        }
        None
    }

    proof fn lemma_lookup(&self, i: int)
        requires
            self.wf(),
            0 <= i < self.entries@.len(),
        ensures
            self.results().contains_key(self.entries@[i].0@),
            self.results()[self.entries@[i].0@] == self.entries@[i].1,
    {
        let k = self.entries@[i].0@;
        assert(exists|j: int| 0 <= j < self.entries@.len() && self.entries@[j].0@ == k);
        let j = choose|j: int| 0 <= j < self.entries@.len() && self.entries@[j].0@ == k;
        if j < i {
            assert(self.entries@[j].0@ != self.entries@[i].0@);
        }
        if i < j {
            assert(self.entries@[i].0@ != self.entries@[j].0@);
        }
    }

    /// The result recorded for a request id, if any.
    pub fn replay(&self, request_id: &str) -> (r: Option<&V>)
        requires
            self.wf(),
        ensures
            match r {
                Some(v) => self.results().contains_key(request_id@) && self.results()[request_id@] == *v,
                None => !self.results().contains_key(request_id@),
            },
    {
        let id = String::from_str(request_id);
        match self.position(&id) {
            Some(i) => {
                proof {
                    self.lemma_lookup(i as int);
                }
                Some(&self.entries[i].1)
            },
            None => None,
        }
    }

    /// Records the result of a request id (replacing an earlier one).
    pub fn record(&mut self, request_id: &str, result: V)
        requires
            old(self).wf(),
        ensures
            final(self).wf(),
            final(self).results() == old(self).results().insert(request_id@, result),
    {
        let id = String::from_str(request_id);
        let ghost before = self.results();
        match self.position(&id) {
            Some(i) => {
                let ghost old_entries = self.entries@;
                self.entries.set(i, (id, result));
                proof {
                    assert forall|k: Seq<char>| #[trigger] self.results().contains_key(k) == before.insert(request_id@, result).contains_key(k) by {
                        if before.contains_key(k) {
                            let j = choose|j: int| 0 <= j < old_entries.len() && old_entries[j].0@ == k;
                            assert(self.entries@[j].0@ == k);
                        }
                        if self.results().contains_key(k) {
                            let j = choose|j: int| 0 <= j < self.entries@.len() && self.entries@[j].0@ == k;
                            assert(old_entries[j].0@ == k);
                        }
                    }
                    assert forall|k: Seq<char>| self.results().contains_key(k) implies #[trigger] self.results()[k] == before.insert(request_id@, result)[k] by {
                        let j = choose|j: int| 0 <= j < self.entries@.len() && self.entries@[j].0@ == k;
                        self.lemma_lookup(j);
                        if k != request_id@ {
                            assert(old_entries[j] == self.entries@[j]);
                            assert(old_entries[j].0@ == k);
                            assert(before.contains_key(k));
                            let jj = choose|jj: int| 0 <= jj < old_entries.len() && old_entries[jj].0@ == k;
                            if jj != j {
                                if jj < j {
                                    assert(old_entries[jj].0@ != old_entries[j].0@);
                                } else {
                                    assert(old_entries[j].0@ != old_entries[jj].0@);
                                }
                            }
                        }
                    }
                    assert(self.results() =~= before.insert(request_id@, result));
                }
            },
            None => {
                let ghost old_entries = self.entries@;
                self.entries.push((id, result));
                proof {
                    let n = old_entries.len() as int;
                    assert forall|k: Seq<char>| #[trigger] self.results().contains_key(k) == before.insert(request_id@, result).contains_key(k) by {
                        if before.contains_key(k) {
                            let j = choose|j: int| 0 <= j < old_entries.len() && old_entries[j].0@ == k;
                            assert(self.entries@[j].0@ == k);
                        }
                        if k == request_id@ {
                            assert(self.entries@[n].0@ == k);
                        }
                        if self.results().contains_key(k) {
                            let j = choose|j: int| 0 <= j < self.entries@.len() && self.entries@[j].0@ == k;
                            if j < n {
                                assert(old_entries[j].0@ == k);
                            }
                        }
                    }
                    assert forall|k: Seq<char>| self.results().contains_key(k) implies #[trigger] self.results()[k] == before.insert(request_id@, result)[k] by {
                        let j = choose|j: int| 0 <= j < self.entries@.len() && self.entries@[j].0@ == k;
                        self.lemma_lookup(j);
                        if k != request_id@ {
                            assert(j < n);
                            assert(old_entries[j] == self.entries@[j]);
                            let jj = choose|jj: int| 0 <= jj < old_entries.len() && old_entries[jj].0@ == k;
                            if jj != j {
                                if jj < j {
                                    assert(old_entries[jj].0@ != old_entries[j].0@);
                                } else {
                                    assert(old_entries[j].0@ != old_entries[jj].0@);
                                }
                            }
                        }
                    }
                    assert(self.results() =~= before.insert(request_id@, result));
                }
            },
        }
    }
}

/// What a command request is admitted to.
pub enum Admission<'a, V> {
    /// The request id was seen before: its recorded result is replayed.
    Replay(&'a V),
    /// A numeric weight without a `sourceRef.system`: rejected, since numbers
    /// may enter only from a traced source.
    RejectNumericWeight,
    /// The command is executed.
    Execute,
}

pub enum AdmissionView<V> {
    Replay(V),
    RejectNumericWeight,
    Execute,
}

impl<'a, V> View for Admission<'a, V> {
    type V = AdmissionView<V>;

    open spec fn view(&self) -> AdmissionView<V> {
        match self {
            Admission::Replay(v) => AdmissionView::Replay(**v),
            Admission::RejectNumericWeight => AdmissionView::RejectNumericWeight,
            Admission::Execute => AdmissionView::Execute,
        }
    }
}

/// How a command is admitted, given the results recorded so far: a
/// recorded request id replays its result; otherwise a numeric weight
/// without a `sourceRef.system` is rejected; otherwise the command runs.
pub open spec fn admission_of<V>(
    results: Map<Seq<char>, V>,
    request_id: Option<Seq<char>>,
    has_numeric_weight: bool,
    has_source_system: bool,
) -> AdmissionView<V> {
    if request_id is Some && results.contains_key(request_id.unwrap()) {
        AdmissionView::Replay(results[request_id.unwrap()])
    } else if has_numeric_weight && !has_source_system {
        AdmissionView::RejectNumericWeight
    } else {
        AdmissionView::Execute
    }
}

/// The view of an optional text argument.
pub open spec fn opt_id(o: Option<&str>) -> Option<Seq<char>> {
    match o {
        Some(s) => Some(s@),
        None => None,
    }
}

/// Admits a command (see [`admission_of`]).
pub fn admit_command<'a, V>(
    log: &'a RequestLog<V>,
    request_id: Option<&str>,
    has_numeric_weight: bool,
    has_source_system: bool,
) -> (r: Admission<'a, V>)
    requires
        log.wf(),
    ensures
        r@ == admission_of(log.results(), opt_id(request_id), has_numeric_weight, has_source_system),
{
    match request_id {
        Some(id) => match log.replay(id) {
            Some(v) => return Admission::Replay(v),
            None => {},
        },
        None => {},
    }
    if has_numeric_weight && !has_source_system {
        Admission::RejectNumericWeight
    } else {
        Admission::Execute
    }
}

/// What a query asks for.
#[derive(Clone, Copy, Debug, PartialEq, Eq, Structural)]
pub enum QueryRoute {
    /// Every declared contraction, contracted.
    AnalyzeContract,
    /// The findings of the loaded model.
    AnalyzeFindings,
    /// Whether a model is loaded and valid.
    Validate,
    /// A query this build does not answer.
    Unsupported,
}

/// The route of a query kind.
pub open spec fn query_route(kind: Seq<char>) -> QueryRoute {
    if kind == "analyze.contract"@ {
        QueryRoute::AnalyzeContract
    } else if kind == "analyze.findings"@ {
        QueryRoute::AnalyzeFindings
    } else if kind == "validate"@ {
        QueryRoute::Validate
    } else {
        QueryRoute::Unsupported
    }
}

/// Routes a query by its kind.
pub fn route_query(kind: &str) -> (r: QueryRoute)
    ensures
        r == query_route(kind@),
{
    let k = String::from_str(kind);
    if k == String::from_str("analyze.contract") {
        QueryRoute::AnalyzeContract
    } else if k == String::from_str("analyze.findings") {
        QueryRoute::AnalyzeFindings
    } else if k == String::from_str("validate") {
        QueryRoute::Validate
    } else {
        QueryRoute::Unsupported
    }
}

/// The operations a response offers next: after a contraction, the other
/// analyses, validation and description; after the findings, contraction,
/// validation and description; after validation, the analyses and
/// description when a model is loaded, else opening one; after an
/// unsupported query, the supported ones.
pub open spec fn links_of(route: QueryRoute, has_model: bool) -> Seq<Seq<char>> {
    match route {
        QueryRoute::AnalyzeContract => seq!["analyze.findings"@, "analyze.marginalize"@, "validate"@, "describe"@],
        QueryRoute::AnalyzeFindings => seq!["analyze.contract"@, "validate"@, "describe"@],
        QueryRoute::Validate => if has_model {
            seq!["analyze.contract"@, "analyze.findings"@, "describe"@]
        } else {
            seq!["open"@]
        },
        QueryRoute::Unsupported => seq!["analyze.contract"@, "analyze.findings"@, "validate"@],
    }
}

/// The links of a query response (see [`links_of`]); never empty.
pub fn query_links(route: QueryRoute, has_model: bool) -> (r: Vec<&'static str>)
    ensures
        r@.len() > 0,
        r@.map_values(|t: &str| t@) == links_of(route, has_model),
{
    let r: Vec<&'static str> = match route {
        QueryRoute::AnalyzeContract => vec!["analyze.findings", "analyze.marginalize", "validate", "describe"],
        QueryRoute::AnalyzeFindings => vec!["analyze.contract", "validate", "describe"],
        QueryRoute::Validate => if has_model {
            vec!["analyze.contract", "analyze.findings", "describe"]
        } else {
            vec!["open"]
        },
        QueryRoute::Unsupported => vec!["analyze.contract", "analyze.findings", "validate"],
    };
    assert(r@.map_values(|t: &str| t@) =~= links_of(route, has_model));
    r
}

} // verus!
