//! Loading a profile with its includes, as a machine: it asks for the text of
//! each included file in turn, and puts the included profiles together once
//! a file's includes are all loaded. Reading files and resolving their paths
//! are left to the caller.
use vstd::prelude::*;
use crate::formats::yaml_documents_of;
use crate::profile::{
    CompiledProfile, EvaluatorError, ErrorV, IncludeStack, PendingProfile, PendingV, ProfileV,
    begin_of, begin_profile, begin_profile_text, finish_of, finish_profile, profiles_view,
    opt_string_view, docs_view, other_than,
};
use crate::json::Json;
use crate::raw::normalized_docs;

verus! {

/// A file being loaded: its key on the include stack (none for a profile given
/// as text), the folder its includes are relative to, its first document and
/// the included profiles loaded so far.
struct Frame {
    key: Option<String>,
    base: Option<String>,
    pending: PendingProfile,
    included: Vec<CompiledProfile>,
}

#[verifier::ext_equal]
pub struct FrameV {
    pub key: Option<Seq<char>>,
    pub base: Option<Seq<char>>,
    pub pending: PendingV,
    pub included: Seq<ProfileV>,
}

impl View for Frame {
    type V = FrameV;

    closed spec fn view(&self) -> FrameV {
        FrameV {
            key: opt_string_view(self.key),
            base: opt_string_view(self.base),
            pending: self.pending@,
            included: profiles_view(self.included@),
        }
    }
}

/// The loading machine: the files being loaded, from the outermost one, and
/// the stack of files entered, which refuses include cycles.
pub struct Loader {
    frames: Vec<Frame>,
    stack: IncludeStack,
}

#[verifier::ext_equal]
pub struct LoaderV {
    pub frames: Seq<FrameV>,
    pub stack: Seq<Seq<char>>,
}

impl View for Loader {
    type V = LoaderV;

    closed spec fn view(&self) -> LoaderV {
        LoaderV { frames: self.frames@.map_values(|f: Frame| f@), stack: self.stack@ }
    }
}

/// What the machine wants next.
#[derive(Debug)]
pub enum LoadAction {
    /// The text of the file at `path`, relative to `base` when there is one.
    Read { path: String, base: Option<String> },
    Continue,
    Done(CompiledProfile),
    Failed(EvaluatorError),
}

pub enum LoadActionV {
    Read(Seq<char>, Option<Seq<char>>),
    Continue,
    Done(ProfileV),
    Failed(ErrorV),
}

impl View for LoadAction {
    type V = LoadActionV;

    open spec fn view(&self) -> LoadActionV {
        match self {
            LoadAction::Read { path, base } => LoadActionV::Read(path@, opt_string_view(*base)),
            LoadAction::Continue => LoadActionV::Continue,
            LoadAction::Done(c) => LoadActionV::Done(c@),
            LoadAction::Failed(e) => LoadActionV::Failed(e@),
        }
    }
}

pub open spec fn stopped(stack: Seq<Seq<char>>) -> LoaderV {
    LoaderV { frames: Seq::empty(), stack }
}

/// Starting from a profile's text, with no file behind it.
pub open spec fn start_text(text: Seq<char>, base: Option<Seq<char>>) -> Result<LoaderV, ErrorV> {
    match yaml_documents_of(text) {
        Err(m) => Err(ErrorV::Yaml(m)),
        Ok(d) => match begin_of(normalized_docs(d), None) {
            Err(e) => Err(e),
            Ok(p) => Ok(
                LoaderV {
                    frames: seq![FrameV { key: None, base, pending: p, included: Seq::empty() }],
                    stack: Seq::empty(),
                },
            ),
        },
    }
}

/// Handing the machine a file's text: the file is entered on the include stack
/// (refused when it is being loaded already, which is a cycle), read, and
/// becomes the file being loaded. On an error the machine stops.
pub open spec fn open_spec(
    m: LoaderV,
    key: Seq<char>,
    shown: Seq<char>,
    text: Seq<char>,
    base: Option<Seq<char>>,
) -> (LoaderV, Result<(), ErrorV>) {
    if m.stack.contains(key) {
        (stopped(m.stack), Err(ErrorV::InvalidProfile("include cycle detected at "@ + shown)))
    } else {
        match yaml_documents_of(text) {
            Err(msg) => (stopped(m.stack.push(key)), Err(ErrorV::Yaml(msg))),
            Ok(d) => match begin_of(normalized_docs(d), Some(shown)) {
                Err(e) => (stopped(m.stack.push(key).filter(other_than(key))), Err(e)),
                Ok(p) => (
                    LoaderV {
                        frames: m.frames.push(FrameV { key: Some(key), base, pending: p, included: Seq::empty() }),
                        stack: m.stack.push(key),
                    },
                    Ok(()),
                ),
            },
        }
    }
}

/// One step: while the current file has includes left, ask for the next one;
/// otherwise put the file's profile together, leave the file, and hand the
/// profile to the file that included it, or report it when it is the first.
pub open spec fn load_step(m: LoaderV) -> (LoaderV, LoadActionV) {
    let top = m.frames.last();
    if top.included.len() < top.pending.includes.len() {
        (m, LoadActionV::Read(top.pending.includes[top.included.len() as int], top.base))
    } else {
        let rest = m.frames.drop_last();
        let stack = match top.key {
            Some(k) => m.stack.filter(other_than(k)),
            None => m.stack,
        };
        match finish_of(top.pending, top.included) {
            Err(e) => (stopped(stack), LoadActionV::Failed(e)),
            Ok(c) => if rest.len() == 0 {
                (stopped(stack), LoadActionV::Done(c))
            } else {
                (
                    LoaderV {
                        frames: rest.update(
                            rest.len() - 1,
                            FrameV { included: rest.last().included.push(c), ..rest.last() },
                        ),
                        stack,
                    },
                    LoadActionV::Continue,
                )
            },
        }
    }
}

impl Loader {
    /// A machine with nothing loaded; hand it the first file with `open`.
    pub fn new() -> (l: Loader)
        ensures
            l@ == stopped(Seq::empty()),
    {
        let l = Loader { frames: Vec::new(), stack: IncludeStack::new() };
        proof {
            assert(l@.frames =~= Seq::<FrameV>::empty());
        }
        l
    }

    /// A machine loading a profile given as text; its includes are relative
    /// to `base` when there is one.
    pub fn from_text(text: &str, base: Option<String>) -> (r: Result<Loader, EvaluatorError>)
        ensures
            match start_text(text@, opt_string_view(base)) {
                Ok(v) => r matches Ok(l) && l@ == v,
                Err(e) => r matches Err(x) && x@ == e,
            },
    {
        let pending = match begin_profile_text(text, None) {
            Ok(p) => p,
            Err(e) => {
                return Err(e);
            },
        };
        let none_yet: Vec<CompiledProfile> = Vec::new();
        proof {
            assert(profiles_view(none_yet@) =~= Seq::<ProfileV>::empty());
        }
        let frame = Frame { key: None, base, pending, included: none_yet };
        let mut frames: Vec<Frame> = Vec::new();
        frames.push(frame);
        let l = Loader { frames, stack: IncludeStack::new() };
        proof {
            assert(l@.frames =~= seq![l.frames@[0]@]);
        }
        Ok(l)
    }

    /// Whether a file is being loaded, so that `step` may be called.
    pub fn working(&self) -> (r: bool)
        ensures
            r == (self@.frames.len() > 0),
    {
        self.frames.len() > 0
    }

    /// Hands the machine the text of the file `key` (its canonical path, shown
    /// as `shown` in messages), whose includes are relative to `base`.
    pub fn open(&mut self, key: String, shown: &str, text: &str, base: Option<String>) -> (r: Result<
        (),
        EvaluatorError,
    >)
        ensures
            ({
                let (m2, res) = open_spec(old(self)@, key@, shown@, text@, opt_string_view(base));
                &&& final(self)@ == m2
                &&& match res {
                    Ok(_) => r is Ok,
                    Err(e) => r matches Err(x) && x@ == e,
                }
            }),
    {
        let ghost m = self@;
        let key_copy = key.clone();
        match self.stack.enter(key, shown) {
            Err(e) => {
                self.frames = Vec::new();
                proof {
                    assert(self@.frames =~= Seq::<FrameV>::empty());
                }
                return Err(e);
            },
            Ok(()) => {},
        }
        let raws = match crate::formats::yaml_documents(text) {
            Err(msg) => {
                self.frames = Vec::new();
                proof {
                    assert(self@.frames =~= Seq::<FrameV>::empty());
                }
                return Err(EvaluatorError::Yaml(msg));
            },
            Ok(raws) => raws,
        };
        let docs = crate::raw::jsons_from_raw(&raws);
        proof {
            assert(docs_view(docs@) =~= docs@.map_values(|j: Json| j@));
        }
        match begin_profile(docs, Some(shown)) {
            Err(e) => {
                self.stack.leave(key_copy.as_str());
                self.frames = Vec::new();
                proof {
                    assert(self@.frames =~= Seq::<FrameV>::empty());
                }
                Err(e)
            },
            Ok(pending) => {
                let none_yet: Vec<CompiledProfile> = Vec::new();
                proof {
                    assert(profiles_view(none_yet@) =~= Seq::<ProfileV>::empty());
                }
                self.frames.push(Frame { key: Some(key_copy), base, pending, included: none_yet });
                proof {
                    assert(self@.frames =~= m.frames.push(self.frames@.last()@));
                }
                Ok(())
            },
        }
    }

    /// Advances the machine by one step (see `load_step`).
    pub fn step(&mut self) -> (a: LoadAction)
        requires
            old(self)@.frames.len() > 0,
        ensures
            (final(self)@, a@) == load_step(old(self)@),
    {
        let ghost m = self@;
        let n = self.frames.len();
        let wanted = self.frames[n - 1].included.len();
        if wanted < self.frames[n - 1].pending.includes.len() {
            let path = self.frames[n - 1].pending.includes[wanted].clone();
            let base = match &self.frames[n - 1].base {
                Some(b) => Some(b.clone()),
                None => None,
            };
            proof {
                assert(m.frames.last() == self.frames@[n - 1]@);
                assert(profiles_view(self.frames@[n - 1].included@).len() == wanted);
                assert(crate::profile::strings_view(self.frames@[n - 1].pending.includes@)[wanted as int]
                    == self.frames@[n - 1].pending.includes@[wanted as int]@);
            }
            return LoadAction::Read { path, base };
        }
        let top = self.frames.pop().unwrap();
        proof {
            assert(self@.frames =~= m.frames.drop_last());
            assert(m.frames.last() == top@);
        }
        let Frame { key, base: _, pending, included } = top;
        match &key {
            Some(k) => {
                self.stack.leave(k.as_str());
                proof {
                    assert(m.frames.last().key == Some(k@));
                    assert(self.stack@ == m.stack.filter(other_than(k@)));
                }
            },
            None => {
                proof {
                    assert(m.frames.last().key is None);
                }
            },
        }
        match finish_profile(pending, included) {
            Err(e) => {
                self.frames = Vec::new();
                proof {
                    assert(self@.frames =~= Seq::<FrameV>::empty());
                }
                LoadAction::Failed(e)
            },
            Ok(c) => {
                if self.frames.len() == 0 {
                    LoadAction::Done(c)
                } else {
                    let mut parent = self.frames.pop().unwrap();
                    let ghost pv = parent@;
                    parent.included.push(c);
                    self.frames.push(parent);
                    proof {
                        let rest = m.frames.drop_last();
                        assert(pv == rest.last());
                        assert(profiles_view(self.frames@.last().included@) =~= pv.included.push(c@));
                        assert(self@.frames =~= rest.update(
                            rest.len() - 1,
                            FrameV { included: rest.last().included.push(c@), ..rest.last() },
                        ));
                    }
                    LoadAction::Continue
                }
            },
        }
    }
}

} // verus!
