//! Diagnostics grouped by source path, their normal form at the host
//! boundary, and the single-error collapse of a failed compile.

use vstd::prelude::*;
use vstd::string::StringExecFns;
use vstd::pervasive::cloned;
use crate::errs::BridgeError;

verus! {

/// Severity of one compiler diagnostic.
#[derive(Clone, Copy, PartialEq, Eq, Structural, Debug)]
pub enum Level {
    Error,
    InternalError,
    CompilerDebug,
    Lint,
}

impl Level {
    /// A terminating level makes a failed compile surface as a hard error.
    pub open spec fn is_terminating_spec(self) -> bool {
        self == Level::Error || self == Level::InternalError
    }

    #[verifier::when_used_as_spec(is_terminating_spec)]
    pub fn is_terminating(self) -> (r: bool)
        ensures
            r == self.is_terminating_spec(),
    {
        match self {
            Level::Error => true,
            Level::InternalError => true,
            Level::CompilerDebug => false,
            Level::Lint => false,
        }
    }

    /// The level's name as it appears at the host boundary.
    pub open spec fn label_spec(self) -> Seq<char> {
        match self {
            Level::Error => "Error"@,
            Level::InternalError => "InternalError"@,
            Level::CompilerDebug => "CompilerDebug"@,
            Level::Lint => "Lint"@,
        }
    }

    pub fn label(self) -> (r: &'static str)
        ensures
            r@ == self.label_spec(),
    {
        match self {
            Level::Error => "Error",
            Level::InternalError => "InternalError",
            Level::CompilerDebug => "CompilerDebug",
            Level::Lint => "Lint",
        }
    }
}

/// One compiler diagnostic: a severity and a message.
#[derive(Debug)]
pub struct Diagnostic {
    pub level: Level,
    pub message: String,
}

/// The mathematical content of a `Diagnostic`.
pub struct DiagView {
    pub level: Level,
    pub message: Seq<char>,
}

impl View for Diagnostic {
    type V = DiagView;

    open spec fn view(&self) -> DiagView {
        DiagView { level: self.level, message: self.message@ }
    }
}

impl Clone for Diagnostic {
    fn clone(&self) -> (r: Self)
        ensures
            r@ == self@,
    {
        Diagnostic { level: self.level, message: self.message.clone() }
    }
}

/// `"{level}: {message}"`.
pub open spec fn formatted_spec(d: DiagView) -> Seq<char> {
    d.level.label_spec() + ": "@ + d.message
}

/// The message used when a failed compile carries no terminating
/// diagnostic.
pub open spec fn fallback_message_spec() -> Seq<char> {
    "InternalError: Could not find error"@
}

pub fn format_diagnostic(d: &Diagnostic) -> (r: String)
    ensures
        r@ == formatted_spec(d@),
{
    let mut s = d.level.label().to_owned();
    s.append(": ");
    s.append(d.message.as_str());
    s
}

/// One path's worth of diagnostics, as mathematical content.
pub open spec fn entry_view(e: (String, Vec<Diagnostic>)) -> (Seq<char>, Seq<DiagView>) {
    (e.0@, e.1@.map_values(|d: Diagnostic| d@))
}

/// No diagnostic strictly before position `(i, j)` — in grouping order,
/// then emission order — is at a terminating level.
pub open spec fn none_terminating_before(
    s: Seq<(Seq<char>, Seq<DiagView>)>,
    i: int,
    j: int,
) -> bool {
    forall|p: int, q: int|
        0 <= p < s.len() && 0 <= q < s[p].1.len() && (p < i || (p == i && q < j))
            ==> !s[p].1[q].level.is_terminating_spec()
}

/// No diagnostic anywhere in the index is at a terminating level.
pub open spec fn none_terminating(s: Seq<(Seq<char>, Seq<DiagView>)>) -> bool {
    forall|p: int, q: int|
        0 <= p < s.len() && 0 <= q < s[p].1.len()
            ==> !s[p].1[q].level.is_terminating_spec()
}

/// The diagnostic at `(i, j)` is the first one at a terminating level.
pub open spec fn is_first_terminating(
    s: Seq<(Seq<char>, Seq<DiagView>)>,
    i: int,
    j: int,
) -> bool {
    &&& 0 <= i < s.len()
    &&& 0 <= j < s[i].1.len()
    &&& s[i].1[j].level.is_terminating_spec()
    &&& none_terminating_before(s, i, j)
}

/// An entry survives normalization when it carries a diagnostic.
pub open spec fn kept_entry(e: (Seq<char>, Seq<DiagView>)) -> bool {
    e.1.len() > 0
}

/// The normal form of raw per-path lists: entries with no diagnostics
/// are left out; nothing else changes, in content or in order.
pub open spec fn normalized_view(
    s: Seq<(Seq<char>, Seq<DiagView>)>,
) -> Seq<(Seq<char>, Seq<DiagView>)> {
    s.filter(|e: (Seq<char>, Seq<DiagView>)| kept_entry(e))
}

/// Appending one raw entry either extends the normal form by it or
/// leaves the normal form as it was.
proof fn lemma_normalized_push(s: Seq<(Seq<char>, Seq<DiagView>)>, x: (Seq<char>, Seq<DiagView>))
    ensures
        normalized_view(s.push(x)) == (if kept_entry(x) {
            normalized_view(s).push(x)
        } else {
            normalized_view(s)
        }),
{
    reveal(Seq::filter);
    assert(s.push(x).drop_last() =~= s);
    assert(s.push(x).last() == x);
}

/// Law: a path is a key of the normalized index exactly when at least
/// one diagnostic was emitted for it — a path with zero diagnostics is
/// absent, never present with an empty list.
pub proof fn lemma_normalized_keys(s: Seq<(Seq<char>, Seq<DiagView>)>, p: Seq<char>)
    ensures
        (exists|k: int|
            0 <= k < normalized_view(s).len() && (#[trigger] normalized_view(s)[k]).0 == p)
            <==> (exists|i: int|
            0 <= i < s.len() && (#[trigger] s[i]).0 == p && s[i].1.len() > 0),
    decreases s.len(),
{
    reveal(Seq::filter);
    let f = normalized_view(s);
    if s.len() == 0 {
        assert(f.len() == 0);
    } else {
        let s0 = s.drop_last();
        let f0 = normalized_view(s0);
        lemma_normalized_keys(s0, p);
        if kept_entry(s.last()) {
            assert(f == f0.push(s.last()));
            if exists|k: int| 0 <= k < f.len() && f[k].0 == p {
                let k = choose|k: int| 0 <= k < f.len() && f[k].0 == p;
                if k < f0.len() {
                    assert(f0[k].0 == p);
                    let i = choose|i: int| 0 <= i < s0.len() && s0[i].0 == p && s0[i].1.len() > 0;
                    assert(s[i].0 == p && s[i].1.len() > 0);
                } else {
                    assert(f[k] == s.last());
                    assert(s[s.len() - 1].0 == p && s[s.len() - 1].1.len() > 0);
                }
            }
            if exists|i: int| 0 <= i < s.len() && s[i].0 == p && s[i].1.len() > 0 {
                let i = choose|i: int| 0 <= i < s.len() && s[i].0 == p && s[i].1.len() > 0;
                if i < s.len() - 1 {
                    assert(s0[i].0 == p && s0[i].1.len() > 0);
                    let k = choose|k: int| 0 <= k < f0.len() && f0[k].0 == p;
                    assert(f[k].0 == p);
                } else {
                    assert(f[f.len() - 1].0 == p);
                }
            }
        } else {
            assert(f == f0);
            if exists|i: int| 0 <= i < s.len() && s[i].0 == p && s[i].1.len() > 0 {
                let i = choose|i: int| 0 <= i < s.len() && s[i].0 == p && s[i].1.len() > 0;
                assert(i < s.len() - 1);
                assert(s0[i].0 == p && s0[i].1.len() > 0);
            }
        }
    }
}

/// Law: normalization neither adds nor loses terminating diagnostics —
/// the host-facing index carries an `Error`- or `InternalError`-level
/// entry exactly when the compiler emitted one.
pub proof fn lemma_normalized_terminating(s: Seq<(Seq<char>, Seq<DiagView>)>)
    ensures
        none_terminating(s) <==> none_terminating(normalized_view(s)),
    decreases s.len(),
{
    reveal(Seq::filter);
    let f = normalized_view(s);
    if s.len() > 0 {
        let s0 = s.drop_last();
        let f0 = normalized_view(s0);
        lemma_normalized_terminating(s0);
        let x = s.last();
        if none_terminating(s) {
            assert forall|p: int, q: int|
                0 <= p < s0.len() && 0 <= q < s0[p].1.len()
                    implies !s0[p].1[q].level.is_terminating_spec() by {
                assert(s0[p] == s[p]);
            }
            assert(none_terminating(s0));
            if kept_entry(x) {
                assert(f == f0.push(x));
                assert forall|p: int, q: int|
                    0 <= p < f.len() && 0 <= q < f[p].1.len()
                        implies !f[p].1[q].level.is_terminating_spec() by {
                    if p < f0.len() {
                        assert(f[p] == f0[p]);
                    } else {
                        assert(f[p] == s[s.len() - 1]);
                    }
                }
                assert(none_terminating(f));
            } else {
                assert(f == f0);
            }
        }
        if none_terminating(f) {
            if kept_entry(x) {
                assert(f == f0.push(x));
            } else {
                assert(f == f0);
            }
            assert forall|p: int, q: int|
                0 <= p < f0.len() && 0 <= q < f0[p].1.len()
                    implies !f0[p].1[q].level.is_terminating_spec() by {
                assert(f0[p] == f[p]);
            }
            assert(none_terminating(f0));
            assert forall|p: int, q: int|
                0 <= p < s.len() && 0 <= q < s[p].1.len()
                    implies !s[p].1[q].level.is_terminating_spec() by {
                if p < s.len() - 1 {
                    assert(s[p] == s0[p]);
                } else {
                    assert(s[p] == x);
                    assert(kept_entry(x));
                    assert(f[f.len() - 1] == x);
                    assert(!f[f.len() - 1].1[q].level.is_terminating_spec());
                }
            }
            assert(none_terminating(s));
        }
    }
}

/// At most one position is the first terminating one.
pub proof fn lemma_first_terminating_unique(
    s: Seq<(Seq<char>, Seq<DiagView>)>,
    i1: int,
    j1: int,
    i2: int,
    j2: int,
)
    requires
        is_first_terminating(s, i1, j1),
        is_first_terminating(s, i2, j2),
    ensures
        i1 == i2,
        j1 == j2,
{
    if i1 < i2 || (i1 == i2 && j1 < j2) {
        assert(!s[i1].1[j1].level.is_terminating_spec());
    } else if i2 < i1 || (i1 == i2 && j2 < j1) {
        assert(!s[i2].1[j2].level.is_terminating_spec());
    }
}

/// An ordered index from source path to the diagnostics emitted for it.
///
/// Grouping order is the order in which the paths were handed over; the
/// order within one path is the emission order, kept exactly.
pub struct DiagnosticsIndex {
    entries: Vec<(String, Vec<Diagnostic>)>,
}

impl View for DiagnosticsIndex {
    type V = Seq<(Seq<char>, Seq<DiagView>)>;

    closed spec fn view(&self) -> Seq<(Seq<char>, Seq<DiagView>)> {
        self.entries@.map_values(|e: (String, Vec<Diagnostic>)| entry_view(e))
    }
}

impl DiagnosticsIndex {
    /// Paths occur once each, and only paths with at least one
    /// diagnostic are present.
    pub open spec fn wf(&self) -> bool {
        &&& forall|i: int, j: int| 0 <= i < j < self@.len() ==> self@[i].0 != self@[j].0
        &&& forall|i: int| 0 <= i < self@.len() ==> self@[i].1.len() > 0
    }

    /// Whether some entry carries the path `p`.
    pub open spec fn contains_path(&self, p: Seq<char>) -> bool {
        exists|i: int| 0 <= i < self@.len() && self@[i].0 == p
    }

    pub fn new() -> (r: Self)
        ensures
            r@ == Seq::<(Seq<char>, Seq<DiagView>)>::empty(),
            r.wf(),
    {
        DiagnosticsIndex { entries: Vec::new() }
    }

    pub fn len(&self) -> (r: usize)
        ensures
            r == self@.len(),
    {
        self.entries.len()
    }

    /// The underlying entries, for walking at the host boundary.
    pub fn entries(&self) -> (r: &Vec<(String, Vec<Diagnostic>)>)
        ensures
            r@.map_values(|e: (String, Vec<Diagnostic>)| entry_view(e)) == self@,
    {
        &self.entries
    }

    /// Scan for the first diagnostic at level `Error` or `InternalError`,
    /// in grouping order and, within one path, in emission order;
    /// `CompilerDebug` and `Lint` entries are skipped.
    pub fn find_first_terminating(&self) -> (r: Option<&Diagnostic>)
        ensures
            match r {
                Some(d) => exists|i: int, j: int|
                    is_first_terminating(self@, i, j) && d@ == self@[i].1[j],
                None => none_terminating(self@),
            },
    {
        let n = self.entries.len();
        let mut i: usize = 0;
        while i < n
            invariant
                n == self.entries.len(),
                i <= n,
                none_terminating_before(self@, i as int, 0),
            decreases n - i,
        {
            let ds = &self.entries[i].1;
            let m = ds.len();
            assert(self@[i as int].1 == ds@.map_values(|d: Diagnostic| d@));
            let mut j: usize = 0;
            while j < m
                invariant
                    i < n,
                    j <= m,
                    n == self.entries.len(),
                    ds == &self.entries@[i as int].1,
                    m == ds@.len(),
                    none_terminating_before(self@, i as int, j as int),
                decreases m - j,
            {
                assert(self@[i as int].1[j as int] == ds@[j as int]@);
                if ds[j].level.is_terminating() {
                    assert(is_first_terminating(self@, i as int, j as int));
                    return Some(&ds[j]);
                }
                j += 1;
            }
            assert(none_terminating_before(self@, i as int + 1, 0)) by {
                assert(self@[i as int].1.len() == m);
            }
            i += 1;
        }
        assert(none_terminating(self@));
        None
    }

    /// The single-error collapse of a failed compile: the first
    /// terminating diagnostic formatted as `"{level}: {message}"`, or
    /// the fallback message when no diagnostic terminates.
    pub fn single_error_message(&self) -> (r: String)
        ensures
            single_error_relation(self@, r@),
    {
        match self.find_first_terminating() {
            Some(d) => {
                let r = format_diagnostic(d);
                proof {
                    let (i0, j0) = choose|i0: int, j0: int|
                        is_first_terminating(self@, i0, j0) && d@ == self@[i0].1[j0];
                    assert forall|i: int, j: int| is_first_terminating(self@, i, j)
                        implies r@ == formatted_spec(self@[i].1[j]) by {
                        lemma_first_terminating_unique(self@, i, j, i0, j0);
                    }
                    assert(!none_terminating(self@)) by {
                        assert(self@[i0].1[j0].level.is_terminating_spec());
                    }
                }
                r
            },
            None => {
                let r = "InternalError: Could not find error".to_owned();
                proof {
                    assert forall|i: int, j: int| !is_first_terminating(self@, i, j) by {
                        if is_first_terminating(self@, i, j) {
                            assert(!self@[i].1[j].level.is_terminating_spec());
                        }
                    }
                }
                r
            },
        }
    }

    pub fn contains_key(&self, path: &String) -> (r: bool)
        ensures
            r == self.contains_path(path@),
    {
        let n = self.entries.len();
        let mut i: usize = 0;
        while i < n
            invariant
                n == self.entries.len(),
                i <= n,
                forall|k: int| 0 <= k < i ==> self@[k].0 != path@,
            decreases n - i,
        {
            assert(self@[i as int].0 == self.entries@[i as int].0@);
            if self.entries[i].0 == *path {
                return true;
            }
            i += 1;
        }
        false
    }

    /// The normalizer: group the compiler's raw per-path lists into an
    /// index, in the order handed over. A path whose list is empty is
    /// left out, nothing else is dropped, reordered or deduplicated.
    /// Fails with an input-class error when a kept path occurs twice.
    pub fn from_entries(entries: Vec<(String, Vec<Diagnostic>)>) -> (r: Result<
        DiagnosticsIndex,
        BridgeError,
    >)
        ensures
            match r {
                Ok(d) => {
                    &&& d.wf()
                    &&& d@ == normalized_view(entries@.map_values(
                        |e: (String, Vec<Diagnostic>)| entry_view(e),
                    ))
                    &&& forall|p: Seq<char>|
                        d.contains_path(p) <==> exists|i: int|
                            0 <= i < entries@.len() && entries@[i].0@ == p
                                && entries@[i].1@.len() > 0
                },
                Err(e) => e is Input && exists|i: int, j: int|
                    0 <= i < j < entries@.len() && entries@[i].0@ == entries@[j].0@
                        && entries@[i].1@.len() > 0 && entries@[j].1@.len() > 0,
            },
    {
        let ghost inv = entries@.map_values(|e: (String, Vec<Diagnostic>)| entry_view(e));
        let mut d = DiagnosticsIndex::new();
        let n = entries.len();
        let mut i: usize = 0;
        while i < n
            invariant
                n == entries@.len(),
                i <= n,
                inv == entries@.map_values(|e: (String, Vec<Diagnostic>)| entry_view(e)),
                d@ == normalized_view(inv.take(i as int)),
                d.wf(),
            decreases n - i,
        {
            proof {
                assert(inv[i as int] == entry_view(entries@[i as int]));
                assert(inv.take(i as int + 1) =~= inv.take(i as int).push(inv[i as int]));
                lemma_normalized_push(inv.take(i as int), inv[i as int]);
            }
            if entries[i].1.len() > 0 {
                let path = entries[i].0.clone();
                if d.contains_key(&path) {
                    proof {
                        lemma_normalized_keys(inv.take(i as int), path@);
                        let t = choose|t: int|
                            0 <= t < inv.take(i as int).len() && inv.take(i as int)[t].0 == path@
                                && inv.take(i as int)[t].1.len() > 0;
                        assert(inv[t] == entry_view(entries@[t]));
                        assert(entries@[t].0@ == entries@[i as int].0@);
                        assert(entries@[t].1@.len() > 0 && entries@[i as int].1@.len() > 0);
                    }
                    return Err(BridgeError::Input("Duplicate diagnostics path".to_owned()));
                }
                let ds = entries[i].1.clone();
                proof {
                    assert forall|k: int| 0 <= k < ds@.len()
                        implies ds@[k]@ == entries@[i as int].1@[k]@ by {
                        assert(cloned::<Diagnostic>(entries@[i as int].1@[k], ds@[k]));
                    }
                    assert(ds@.map_values(|x: Diagnostic| x@) =~= entries@[i as int].1@.map_values(
                        |x: Diagnostic| x@,
                    ));
                }
                let ghost dpre = d@;
                d.entries.push((path, ds));
                proof {
                    assert(d@ =~= dpre.push(inv[i as int]));
                }
            }
            i += 1;
        }
        proof {
            assert(inv.take(n as int) =~= inv);
            assert forall|p: Seq<char>|
                d.contains_path(p) <==> exists|t: int|
                    0 <= t < entries@.len() && entries@[t].0@ == p && entries@[t].1@.len() > 0 by {
                lemma_normalized_keys(inv, p);
                if d.contains_path(p) {
                    let t = choose|t: int|
                        0 <= t < inv.len() && inv[t].0 == p && inv[t].1.len() > 0;
                    assert(inv[t] == entry_view(entries@[t]));
                    assert(entries@[t].0@ == p && entries@[t].1@.len() > 0);
                }
                if exists|t: int|
                    0 <= t < entries@.len() && entries@[t].0@ == p && entries@[t].1@.len() > 0 {
                    let t = choose|t: int|
                        0 <= t < entries@.len() && entries@[t].0@ == p
                            && entries@[t].1@.len() > 0;
                    assert(inv[t] == entry_view(entries@[t]));
                    assert(0 <= t < inv.len() && inv[t].0 == p && inv[t].1.len() > 0);
                }
            }
        }
        Ok(d)
    }
}

/// What the single-error collapse promises of its message: the first
/// terminating diagnostic formatted, or the fallback when none
/// terminates, and one of the two cases holds.
pub open spec fn single_error_relation(s: Seq<(Seq<char>, Seq<DiagView>)>, r: Seq<char>) -> bool {
    &&& forall|i: int, j: int|
        is_first_terminating(s, i, j) ==> r == formatted_spec(s[i].1[j])
    &&& none_terminating(s) ==> r == fallback_message_spec()
    &&& (exists|i: int, j: int| is_first_terminating(s, i, j)) || none_terminating(s)
}

/// Law: the single-error collapse is a function of the index alone. Any
/// two messages that satisfy its contract for the same index are equal,
/// so repeated collapses of identical diagnostics agree byte for byte.
pub proof fn lemma_single_error_deterministic(
    s: Seq<(Seq<char>, Seq<DiagView>)>,
    r1: Seq<char>,
    r2: Seq<char>,
)
    requires
        single_error_relation(s, r1),
        single_error_relation(s, r2),
    ensures
        r1 == r2,
{
    if exists|i: int, j: int| is_first_terminating(s, i, j) {
        let (i, j) = choose|i: int, j: int| is_first_terminating(s, i, j);
        assert(r1 == formatted_spec(s[i].1[j]));
        assert(r2 == formatted_spec(s[i].1[j]));
    }
}

} // verus!
