//! The per-call file map: source path to content, each path once.

use vstd::prelude::*;
use vstd::string::StringExecFns;
use crate::errs::BridgeError;

verus! {

/// An immutable mapping from source path to file content, built once per
/// compile call and discarded afterwards. Paths are unique.
pub struct FileMap {
    entries: Vec<(String, String)>,
}

impl View for FileMap {
    type V = Seq<(Seq<char>, Seq<char>)>;

    closed spec fn view(&self) -> Seq<(Seq<char>, Seq<char>)> {
        self.entries@.map_values(|e: (String, String)| (e.0@, e.1@))
    }
}

impl FileMap {
    /// Each path occurs at most once.
    pub open spec fn wf(&self) -> bool {
        forall|i: int, j: int| 0 <= i < j < self@.len() ==> self@[i].0 != self@[j].0
    }

    pub open spec fn contains_path(&self, p: Seq<char>) -> bool {
        exists|i: int| 0 <= i < self@.len() && self@[i].0 == p
    }

    /// The content stored under `p`; meaningful when `contains_path(p)`
    /// holds and the map is well formed.
    pub open spec fn content_of(&self, p: Seq<char>) -> Seq<char> {
        self@[choose|i: int| 0 <= i < self@.len() && self@[i].0 == p].1
    }

    pub fn new() -> (r: Self)
        ensures
            r@ == Seq::<(Seq<char>, Seq<char>)>::empty(),
            r.wf(),
    {
        FileMap { entries: Vec::new() }
    }

    pub fn len(&self) -> (r: usize)
        ensures
            r == self@.len(),
    {
        self.entries.len()
    }

    /// The index of `path` among the entries, if present.
    fn position_of(&self, path: &String) -> (r: Option<usize>)
        ensures
            match r {
                Some(i) => i < self@.len() && self@[i as int].0 == path@,
                None => !self.contains_path(path@),
            },
    {
        let n = self.entries.len();
        let mut i: usize = 0;
        while i < n
            invariant
                n == self.entries.len(),
                i <= n,
                forall|k: int| 0 <= k < i ==> self@[k].0 != path@,
            decreases n - i,
        {
            assert(self@[i as int].0 == self.entries@[i as int].0@);
            if self.entries[i].0 == *path {
                return Some(i);
            }
            i += 1;
        }
        None
    }

    pub fn contains_key(&self, path: &String) -> (r: bool)
        ensures
            r == self.contains_path(path@),
    {
        match self.position_of(path) {
            Some(_) => true,
            None => false,
        }
    }

    /// Add one file. Returns `false` and leaves the map unchanged when
    /// the path is already present.
    pub fn insert(&mut self, path: String, content: String) -> (r: bool)
        requires
            old(self).wf(),
        ensures
            final(self).wf(),
            r == !old(self).contains_path(path@),
            r ==> final(self)@ == old(self)@.push((path@, content@)),
            !r ==> final(self)@ == old(self)@,
    {
        if self.contains_key(&path) {
            false
        } else {
            let ghost pv = path@;
            let ghost cv = content@;
            self.entries.push((path, content));
            proof {
                assert(self@ =~= old(self)@.push((pv, cv)));
            }
            true
        }
    }

    /// The map-backed resolver: look a path up, or fail with a
    /// resolution-class error when it is absent. The compiler may call
    /// this any number of times, in any order, within one invocation;
    /// the map is never changed by a lookup.
    pub fn resolve(&self, path: &String) -> (r: Result<&String, BridgeError>)
        requires
            self.wf(),
        ensures
            match r {
                Ok(c) => self.contains_path(path@) && c@ == self.content_of(path@),
                Err(e) => !self.contains_path(path@) && e is Resolution
                    && e.message_spec() == "File not found: "@ + path@,
            },
    {
        match self.position_of(path) {
            Some(i) => {
                let c = &self.entries[i].1;
                proof {
                    let k = choose|k: int| 0 <= k < self@.len() && self@[k].0 == path@;
                    assert(k == i as int);
                }
                Ok(c)
            },
            None => {
                let mut m = "File not found: ".to_owned();
                m.append(path.as_str());
                Err(BridgeError::Resolution(m))
            },
        }
    }

    /// The value bridge's landing point: build a map from the pairs a
    /// host object was converted to. Fails with an input-class error when
    /// a path occurs twice.
    pub fn from_pairs(pairs: Vec<(String, String)>) -> (r: Result<FileMap, BridgeError>)
        ensures
            match r {
                Ok(m) => m.wf() && m@ == pairs@.map_values(
                    |e: (String, String)| (e.0@, e.1@),
                ),
                Err(e) => e is Input && exists|i: int, j: int|
                    0 <= i < j < pairs@.len() && pairs@[i].0@ == pairs@[j].0@,
            },
    {
        let ghost pview = pairs@.map_values(|e: (String, String)| (e.0@, e.1@));
        let mut m = FileMap::new();
        let n = pairs.len();
        let mut i: usize = 0;
        while i < n
            invariant
                n == pairs@.len(),
                i <= n,
                m.wf(),
                pview == pairs@.map_values(|e: (String, String)| (e.0@, e.1@)),
                m@ == pview.take(i as int),
            decreases n - i,
        {
            let path = pairs[i].0.clone();
            let content = pairs[i].1.clone();
            if !m.insert(path, content) {
                proof {
                    let k = choose|k: int| 0 <= k < m@.len() && m@[k].0 == pairs@[i as int].0@;
                    assert(pairs@[k].0@ == pairs@[i as int].0@);
                }
                return Err(BridgeError::Input("Duplicate file path".to_owned()));
            }
            proof {
                assert(pview.take(i as int + 1) =~= pview.take(i as int).push(pview[i as int]));
            }
            i += 1;
        }
        proof {
            assert(pview.take(n as int) =~= pview);
        }
        Ok(m)
    }
}

/// The value bridge: each own key of the host object, paired with its
/// value's string form — `None` where the value is not a string. Builds
/// the file map, failing with an input-class error when some value is
/// not a string or some key repeats.
pub fn bridge_host_object(pairs: Vec<(String, Option<String>)>) -> (r: Result<
    FileMap,
    BridgeError,
>)
    ensures
        match r {
            Ok(m) => {
                &&& m.wf()
                &&& forall|i: int| 0 <= i < pairs@.len() ==> (#[trigger] pairs@[i]).1 is Some
                &&& m@ == pairs@.map_values(
                    |e: (String, Option<String>)| (e.0@, e.1->Some_0@),
                )
            },
            Err(e) => e is Input && ((exists|i: int|
                0 <= i < pairs@.len() && (#[trigger] pairs@[i]).1 is None) || (exists|i: int,
                j: int,
            | 0 <= i < j < pairs@.len() && pairs@[i].0@ == pairs@[j].0@)),
        },
{
    let ghost pview = pairs@.map_values(|e: (String, Option<String>)| (e.0@, e.1->Some_0@));
    let mut flat: Vec<(String, String)> = Vec::new();
    let n = pairs.len();
    let mut i: usize = 0;
    while i < n
        invariant
            n == pairs@.len(),
            i <= n,
            pview == pairs@.map_values(|e: (String, Option<String>)| (e.0@, e.1->Some_0@)),
            forall|k: int| 0 <= k < i ==> (#[trigger] pairs@[k]).1 is Some,
            flat@.map_values(|e: (String, String)| (e.0@, e.1@)) == pview.take(i as int),
        decreases n - i,
    {
        let path = pairs[i].0.clone();
        let content = match &pairs[i].1 {
            Some(c) => c.clone(),
            None => {
                return Err(BridgeError::Input("File content is not a string".to_owned()));
            },
        };
        flat.push((path, content));
        proof {
            assert(pview.take(i as int + 1) =~= pview.take(i as int).push(pview[i as int]));
            assert(flat@.map_values(|e: (String, String)| (e.0@, e.1@)) =~= flat@.drop_last()
                .map_values(|e: (String, String)| (e.0@, e.1@)).push(pview[i as int]));
        }
        i += 1;
    }
    proof {
        assert(pview.take(n as int) =~= pview);
    }
    let ghost fview = flat@;
    match FileMap::from_pairs(flat) {
        Ok(m) => Ok(m),
        Err(e) => {
            proof {
                let (a, b) = choose|a: int, b: int|
                    0 <= a < b < fview.len() && fview[a].0@ == fview[b].0@;
                assert(pview[a].0 == fview[a].0@ && pview[b].0 == fview[b].0@);
                assert(pairs@[a].0@ == pairs@[b].0@);
            }
            Err(e)
        },
    }
}

/// The callback-backed resolver's translation step. The host callback's
/// outcome, reduced to plain values — `Ok(Some(s))` when the call
/// returned the string `s`, `Ok(None)` when it returned a non-string,
/// `Err(Some(m))` when it threw a value whose string form is `m`, and
/// `Err(None)` when it threw one with no string form — becomes the
/// uniform result the compiler's resolver contract asks for.
pub fn translate_callback_outcome(outcome: Result<Option<String>, Option<String>>) -> (r: Result<
    String,
    String,
>)
    ensures
        match outcome {
            Ok(Some(s)) => r matches Ok(c) && c == s,
            Ok(None) => r matches Err(m) && m@ == "Failed to convert JsValue to String"@,
            Err(Some(e)) => r matches Err(m) && m == e,
            Err(None) => r matches Err(m) && m@ == "Unknown error"@,
        },
{
    match outcome {
        Ok(Some(s)) => Ok(s),
        Ok(None) => Err("Failed to convert JsValue to String".to_owned()),
        Err(Some(e)) => Err(e),
        Err(None) => Err("Unknown error".to_owned()),
    }
}

} // verus!
