//! Confinement of agent file paths to the agent's working directory.
//!
//! Resolving a path needs the file system (canonicalizing, checking that a
//! path exists), so the guard is a small state machine: it asks for one such
//! fact at a time and decides from the answers. Paths are handled as their
//! component lists, each component by its encoded bytes; a guarded path is
//! accepted only when the working directory's components are a prefix of it
//! (whole components, as `Path::starts_with` compares). A path that does not
//! exist yet is placed under its canonical parent only after it is found not
//! to be a symbolic link, so a dangling link cannot carry a write elsewhere.
use vstd::prelude::*;
use crate::text::{chars_of, is_blank, push_str, string_of, trim};

verus! {

/// A path as its list of components.
pub type Components = Vec<Vec<u8>>;

/// The views of a component list.
pub open spec fn comps_view(c: Seq<Vec<u8>>) -> Seq<Seq<u8>> {
    c.map_values(|x: Vec<u8>| x@)
}

/// `base` is a prefix of `p`, whole components at a time.
pub open spec fn within(base: Seq<Seq<u8>>, p: Seq<Seq<u8>>) -> bool {
    base.len() <= p.len() && p.subrange(0, base.len() as int) == base
}

/// A fact the guard needs from the file system.
#[derive(PartialEq, Eq, Structural, Clone, Copy, Debug)]
pub enum GuardAsk {
    /// Canonicalize the working directory; answer with `GuardReply::Base`.
    CanonicalizeBase,
    /// Does the requested path exist (taken as is when absolute, otherwise
    /// joined onto the canonical working directory)? Answer with `GuardReply::Exists`.
    CheckExists,
    /// Canonicalize the requested path; answer with `GuardReply::Target`.
    CanonicalizeTarget,
    /// Is the requested path (joined as for `CheckExists`) itself a symbolic
    /// link, whatever it points to (`symlink_metadata`)? Answer with
    /// `GuardReply::IsLink`.
    CheckLink,
    /// Take the requested path's parent (canonicalized) and file name; answer
    /// with `GuardReply::Parent`.
    CanonicalizeParent,
}

/// An answer from the file system (errors as their message text).
pub enum GuardReply {
    Base(Result<Components, String>),
    Exists(bool),
    Target(Result<Components, String>),
    IsLink(bool),
    Parent { parent: Option<Result<Components, String>>, file_name: Option<Vec<u8>> },
}

/// What the guard wants next.
pub enum GuardNext {
    /// Find out this fact and hand it to `PathGuard::step`.
    Ask(GuardAsk),
    /// The components of the guarded path, or why it is refused.
    Done(Result<Components, String>),
}

/// The reply that answers an ask.
pub open spec fn answers(ask: GuardAsk, reply: GuardReply) -> bool {
    match ask {
        GuardAsk::CanonicalizeBase => reply is Base,
        GuardAsk::CheckExists => reply is Exists,
        GuardAsk::CanonicalizeTarget => reply is Target,
        GuardAsk::CheckLink => reply is IsLink,
        GuardAsk::CanonicalizeParent => reply is Parent,
    }
}

/// The decision once a candidate path's components are known.
pub open spec fn contain_decision(base: Seq<Seq<u8>>, c: Seq<Seq<u8>>) -> Result<Seq<Seq<u8>>, Seq<char>> {
    if within(base, c) {
        Ok(c)
    } else {
        Err("path escapes the working directory"@)
    }
}

/// The view of a `Done` outcome.
pub open spec fn done_view(r: Result<Components, String>) -> Result<Seq<Seq<u8>>, Seq<char>> {
    match r {
        Ok(c) => Ok(comps_view(c@)),
        Err(e) => Err(e@),
    }
}

/// Resolves one requested path against the working directory.
pub struct PathGuard {
    path: String,
    must_exist: bool,
    base: Components,
    pending: Option<GuardAsk>,
    not_link: bool,
}

impl PathGuard {
    /// The requested path.
    pub closed spec fn requested(&self) -> Seq<char> {
        self.path@
    }

    /// Whether the path must already exist (a read) or may be created (a write).
    pub closed spec fn needs_existing(&self) -> bool {
        self.must_exist
    }

    /// The canonical working directory, once known.
    pub closed spec fn base(&self) -> Seq<Seq<u8>> {
        comps_view(self.base@)
    }

    /// The fact the guard is waiting for (none once it is done).
    pub closed spec fn pending(&self) -> Option<GuardAsk> {
        self.pending
    }

    /// Whether the requested path has been found not to be a symbolic link.
    pub closed spec fn not_link(&self) -> bool {
        self.not_link
    }

    /// The guard's protocol: a path that does not resolve is only placed by
    /// its parent once it is known not to be a (dangling) link.
    pub closed spec fn wf(&self) -> bool {
        self.pending == Some(GuardAsk::CanonicalizeParent) ==> self.not_link
    }

    /// Start guarding `path` under the working directory `cwd`; a blank
    /// `cwd` is refused at once.
    pub fn new(cwd: &str, path: &str, must_exist: bool) -> (r: (PathGuard, GuardNext))
        ensures
            r.0.requested() == path@,
            r.0.wf(),
            !r.0.not_link(),
            r.0.needs_existing() == must_exist,
            trim(cwd@).len() == 0 ==> r.0.pending() is None && (r.1 matches GuardNext::Done(Err(e))
                && e@ == "agent has no working directory set"@),
            trim(cwd@).len() != 0 ==> r.0.pending() == Some(GuardAsk::CanonicalizeBase) && r.1
                == GuardNext::Ask(GuardAsk::CanonicalizeBase),
    {
        let p = string_of(chars_of(path).as_slice());
        if is_blank(cwd) {
            let g = PathGuard { path: p, must_exist, base: Vec::new(), pending: None, not_link: false };
            let e = string_of(chars_of("agent has no working directory set").as_slice());
            (g, GuardNext::Done(Err(e)))
        } else {
            let g = PathGuard { path: p, must_exist, base: Vec::new(), pending: Some(GuardAsk::CanonicalizeBase), not_link: false };
            (g, GuardNext::Ask(GuardAsk::CanonicalizeBase))
        }
    }

    /// Whether `reply` answers what the guard is waiting for.
    pub fn accepts(&self, reply: &GuardReply) -> (r: bool)
        ensures
            r == (self.pending() matches Some(a) && answers(a, *reply)),
    {
        match self.pending {
            Some(GuardAsk::CanonicalizeBase) => matches!(reply, GuardReply::Base(_)),
            Some(GuardAsk::CheckExists) => matches!(reply, GuardReply::Exists(_)),
            Some(GuardAsk::CanonicalizeTarget) => matches!(reply, GuardReply::Target(_)),
            Some(GuardAsk::CheckLink) => matches!(reply, GuardReply::IsLink(_)),
            Some(GuardAsk::CanonicalizeParent) => matches!(reply, GuardReply::Parent { .. }),
            None => false,
        }
    }

    fn contain(&self, c: Components) -> (r: GuardNext)
        ensures
            r matches GuardNext::Done(d) && done_view(d) == contain_decision(self.base(), comps_view(c@)),
    {
        let n = self.base.len();
        if n > c.len() {
            return GuardNext::Done(Err(string_of(chars_of("path escapes the working directory").as_slice())));
        }
        let mut i: usize = 0;
        while i < n
            invariant
                n == self.base@.len(),
                n <= c@.len(),
                i <= n,
                forall|k: int| 0 <= k < i ==> (#[trigger] c@[k])@ == self.base@[k]@,
            decreases n - i,
        {
            if !bytes_eq(&c[i], &self.base[i]) {
                proof {
                    assert(comps_view(c@).subrange(0, n as int)[i as int] != comps_view(self.base@)[i as int]);
                }
                return GuardNext::Done(Err(string_of(chars_of("path escapes the working directory").as_slice())));
            }
            i = i + 1;
        }
        proof {
            assert(comps_view(c@).subrange(0, n as int) =~= comps_view(self.base@));
        }
        GuardNext::Done(Ok(c))
    }

    /// Take the answer to the pending ask and decide the next step.
    pub fn step(&mut self, reply: GuardReply) -> (r: GuardNext)
        requires
            old(self).wf(),
            old(self).pending() matches Some(a) && answers(a, reply),
        ensures
            final(self).wf(),
            final(self).requested() == old(self).requested(),
            final(self).needs_existing() == old(self).needs_existing(),
            r matches GuardNext::Ask(a) ==> final(self).pending() == Some(a),
            r is Done ==> final(self).pending() is None,
            r matches GuardNext::Done(Ok(c)) ==> within(old(self).base(), comps_view(c@)),
            r matches GuardNext::Done(Ok(_)) ==> (reply is Target || old(self).not_link()),
            match reply {
                GuardReply::Base(Err(e)) => r matches GuardNext::Done(Err(m)) && m@ == "working dir invalid: "@ + e@,
                GuardReply::Base(Ok(b)) => r == GuardNext::Ask(GuardAsk::CheckExists) && final(self).base() == comps_view(b@),
                GuardReply::Exists(true) => r == GuardNext::Ask(GuardAsk::CanonicalizeTarget)
                    && final(self).base() == old(self).base(),
                GuardReply::Exists(false) => if old(self).needs_existing() {
                    r matches GuardNext::Done(Err(m)) && m@ == "no such file: "@ + old(self).requested()
                } else {
                    r == GuardNext::Ask(GuardAsk::CheckLink) && final(self).base() == old(self).base()
                },
                GuardReply::IsLink(true) => r matches GuardNext::Done(Err(m)) && m@ == "path is a dangling link: "@
                    + old(self).requested(),
                GuardReply::IsLink(false) => r == GuardNext::Ask(GuardAsk::CanonicalizeParent) && final(self).base()
                    == old(self).base() && final(self).not_link(),
                GuardReply::Target(Err(e)) => r matches GuardNext::Done(Err(m)) && m@ == e@,
                GuardReply::Target(Ok(c)) => r matches GuardNext::Done(d) && done_view(d) == contain_decision(
                    old(self).base(),
                    comps_view(c@),
                ),
                GuardReply::Parent { parent: None, file_name: _ } => r matches GuardNext::Done(Err(m)) && m@
                    == "invalid path"@,
                GuardReply::Parent { parent: Some(Err(e)), file_name: _ } => r matches GuardNext::Done(Err(m))
                    && m@ == "parent directory invalid: "@ + e@,
                GuardReply::Parent { parent: Some(Ok(_)), file_name: None } => r matches GuardNext::Done(Err(m))
                    && m@ == "invalid file name"@,
                GuardReply::Parent { parent: Some(Ok(p)), file_name: Some(f) } => r matches GuardNext::Done(d)
                    && done_view(d) == contain_decision(old(self).base(), comps_view(p@).push(f@)),
            },
    {
        match reply {
            GuardReply::Base(Err(e)) => {
                self.pending = None;
                let mut m = chars_of("working dir invalid: ");
                push_str(&mut m, e.as_str());
                GuardNext::Done(Err(string_of(m.as_slice())))
            },
            GuardReply::Base(Ok(b)) => {
                self.base = b;
                self.pending = Some(GuardAsk::CheckExists);
                GuardNext::Ask(GuardAsk::CheckExists)
            },
            GuardReply::Exists(true) => {
                self.pending = Some(GuardAsk::CanonicalizeTarget);
                GuardNext::Ask(GuardAsk::CanonicalizeTarget)
            },
            GuardReply::Exists(false) => {
                if self.must_exist {
                    self.pending = None;
                    let mut m = chars_of("no such file: ");
                    push_str(&mut m, self.path.as_str());
                    GuardNext::Done(Err(string_of(m.as_slice())))
                } else {
                    self.pending = Some(GuardAsk::CheckLink);
                    GuardNext::Ask(GuardAsk::CheckLink)
                }
            },
            GuardReply::IsLink(true) => {
                self.pending = None;
                let mut m = chars_of("path is a dangling link: ");
                push_str(&mut m, self.path.as_str());
                GuardNext::Done(Err(string_of(m.as_slice())))
            },
            GuardReply::IsLink(false) => {
                self.not_link = true;
                self.pending = Some(GuardAsk::CanonicalizeParent);
                GuardNext::Ask(GuardAsk::CanonicalizeParent)
            },
            GuardReply::Target(Err(e)) => {
                self.pending = None;
                GuardNext::Done(Err(e))
            },
            GuardReply::Target(Ok(c)) => {
                self.pending = None;
                self.contain(c)
            },
            GuardReply::Parent { parent: None, file_name: _ } => {
                self.pending = None;
                GuardNext::Done(Err(string_of(chars_of("invalid path").as_slice())))
            },
            GuardReply::Parent { parent: Some(Err(e)), file_name: _ } => {
                self.pending = None;
                let mut m = chars_of("parent directory invalid: ");
                push_str(&mut m, e.as_str());
                GuardNext::Done(Err(string_of(m.as_slice())))
            },
            GuardReply::Parent { parent: Some(Ok(_)), file_name: None } => {
                self.pending = None;
                GuardNext::Done(Err(string_of(chars_of("invalid file name").as_slice())))
            },
            GuardReply::Parent { parent: Some(Ok(p)), file_name: Some(f) } => {
                self.pending = None;
                let mut c = p;
                let ghost pv = c@;
                c.push(f);
                proof {
                    assert(comps_view(c@) =~= comps_view(pv).push(f@));
                }
                self.contain(c)
            },
        }
    }
}

/// Whether two byte vectors are equal.
pub fn bytes_eq(a: &Vec<u8>, b: &Vec<u8>) -> (r: bool)
    ensures
        r == (a@ == b@),
{
    if a.len() != b.len() {
        return false;
    }
    let mut i: usize = 0;
    while i < a.len()
        invariant
            a.len() == b.len(),
            i <= a.len(),
            forall|k: int| 0 <= k < i ==> a@[k] == b@[k],
        decreases a.len() - i,
    {
        if a[i] != b[i] {
            return false;
        }
        i = i + 1;
    }
    proof {
        assert(a@ =~= b@);
    }
    true
}

} // verus!
