//! Turning the arguments of a call into absolute paths, and collecting the
//! directories that must be mounted for the container to see them.
//!
//! The file system is asked by the caller, once per argument, before the
//! decision is taken here.

use crate::text::{chars_contain, chars_of, list_contains, opt_view, strings_view};
use vstd::prelude::*;

verus! {

/// The parent of a path as `Path::parent` gives it: the path without its
/// final component, or nothing where there is none.
pub uninterp spec fn path_parent(path: Seq<char>) -> Option<Seq<char>>;

/// The final component of a path as `Path::file_name` gives it, or nothing
/// where the path ends in `..` or has no component.
pub uninterp spec fn path_file_name(path: Seq<char>) -> Option<Seq<char>>;

/// Calls `Path::parent`. The answer depends on the text of the path alone,
/// not on the file system, and is given the name [`path_parent`].
#[verifier::external_body]
pub(crate) fn parent_of(path: &str) -> (r: Option<String>)
    ensures
        opt_view(r) == path_parent(path@),
{
    match std::path::Path::new(path).parent() {
        Some(p) => Some(p.to_string_lossy().to_string()),
        None => None,
    }
}

/// Calls `Path::file_name`. The answer depends on the text of the path
/// alone, not on the file system, and is given the name [`path_file_name`].
#[verifier::external_body]
pub(crate) fn file_name_of(path: &str) -> (r: Option<String>)
    ensures
        opt_view(r) == path_file_name(path@),
{
    match std::path::Path::new(path).file_name() {
        Some(n) => Some(n.to_string_lossy().to_string()),
        None => None,
    }
}

/// What the file system said of one argument.
#[derive(Debug)]
pub struct PathProbe {
    /// The canonical form of the argument, where it names something that
    /// exists.
    pub canonical: Option<String>,
    /// The canonical form of the argument's parent directory, where that
    /// directory exists and is not the empty path.
    pub canonical_parent: Option<String>,
}

/// The mathematical value of a [`PathProbe`].
pub struct ProbeFacts {
    pub canonical: Option<Seq<char>>,
    pub canonical_parent: Option<Seq<char>>,
}

impl View for PathProbe {
    type V = ProbeFacts;

    open spec fn view(&self) -> ProbeFacts {
        ProbeFacts {
            canonical: opt_view(self.canonical),
            canonical_parent: opt_view(self.canonical_parent),
        }
    }
}

/// The views of a list of probes.
pub open spec fn probes_view(v: Seq<PathProbe>) -> Seq<ProbeFacts> {
    Seq::new(v.len(), |i: int| v[i]@)
}

/// The probe of the argument at `i`; an argument without a probe counts
/// as one of which nothing exists.
pub open spec fn probe_at(probes: Seq<ProbeFacts>, i: int) -> ProbeFacts {
    if 0 <= i < probes.len() {
        probes[i]
    } else {
        ProbeFacts { canonical: None, canonical_parent: None }
    }
}

/// Whether an argument is a flag: it starts with `-`.
pub open spec fn is_flag(arg: Seq<char>) -> bool {
    arg.len() > 0 && arg[0] == '-'
}

/// Whether an argument that names nothing existing still resembles a path.
pub open spec fn looks_like_path(arg: Seq<char>) -> bool {
    arg.contains('/') || arg.contains('.')
}

/// The path of `name` inside the directory `parent`.
pub open spec fn child_path(parent: Seq<char>, name: Seq<char>) -> Seq<char> {
    if parent.len() == 0 || parent[parent.len() - 1] == '/' {
        parent + name
    } else {
        parent + seq!['/'] + name
    }
}

/// The argument as the container gets it.
///
/// A flag is never touched. What exists is replaced by its canonical
/// path. What does not exist but resembles a path, and has an existing
/// parent directory and a final component, is rebuilt under the canonical
/// parent. Everything else passes unchanged.
pub open spec fn resolved_arg(arg: Seq<char>, probe: ProbeFacts) -> Seq<char> {
    if is_flag(arg) {
        arg
    } else {
        match probe.canonical {
            Some(abs) => abs,
            None => if looks_like_path(arg) && probe.canonical_parent is Some && path_file_name(
                arg,
            ) is Some {
                child_path(probe.canonical_parent->0, path_file_name(arg)->0)
            } else {
                arg
            },
        }
    }
}

/// The directory that has to be mounted for one argument, if any: the
/// parent of the canonical path of what exists; else the canonical parent of
/// what resembles a path.
pub open spec fn mount_for(arg: Seq<char>, probe: ProbeFacts) -> Option<Seq<char>> {
    if is_flag(arg) {
        None
    } else {
        match probe.canonical {
            Some(abs) => path_parent(abs),
            None => if looks_like_path(arg) {
                probe.canonical_parent
            } else {
                None
            },
        }
    }
}

/// Every argument as the container gets it, in the order given.
pub open spec fn resolved_args(args: Seq<Seq<char>>, probes: Seq<ProbeFacts>) -> Seq<Seq<char>> {
    Seq::new(args.len(), |i: int| resolved_arg(args[i], probe_at(probes, i)))
}

/// The directories to mount for the first `n` arguments, each once, in the
/// order in which they were first needed.
pub open spec fn auto_mounts(args: Seq<Seq<char>>, probes: Seq<ProbeFacts>, n: int) -> Seq<
    Seq<char>,
>
    decreases n,
{
    if n <= 0 || n > args.len() {
        Seq::empty()
    } else {
        let m = auto_mounts(args, probes, n - 1);
        match mount_for(args[n - 1], probe_at(probes, n - 1)) {
            Some(d) => if m.contains(d) {
                m
            } else {
                m.push(d)
            },
            None => m,
        }
    }
}

/// The path of `name` inside the directory `parent`.
pub fn join_path(parent: &str, name: &str) -> (r: String)
    ensures
        r@ == child_path(parent@, name@),
{
    let p = chars_of(parent);
    let mut r = String::from_str(parent);
    if p.len() > 0 && p[p.len() - 1] != '/' {
        r.push('/');
    }
    r.append(name);
    proof {
        assert(r@ =~= child_path(parent@, name@));
    }
    r
}

fn add_mount(mounts: &mut Vec<String>, dir: String)
    ensures
        strings_view(final(mounts)@) == (if strings_view(old(mounts)@).contains(dir@) {
            strings_view(old(mounts)@)
        } else {
            strings_view(old(mounts)@).push(dir@)
        }),
{
    if !list_contains(mounts, dir.as_str()) {
        proof {
            assert(strings_view(mounts@.push(dir)) =~= strings_view(mounts@).push(dir@));
        }
        mounts.push(dir);
    }
}

/// Resolves the arguments of a call and collects the directories to mount.
///
/// `probes[i]` holds what the file system said of `args[i]`; an argument
/// without a probe is treated as naming nothing that exists. Returns the
/// arguments as the container gets them and the directories to mount.
pub fn resolve_arg_paths(args: &[String], probes: &[PathProbe]) -> (r: (Vec<String>, Vec<String>))
    ensures
        strings_view(r.0@) == resolved_args(strings_view(args@), probes_view(probes@)),
        strings_view(r.1@) == auto_mounts(
            strings_view(args@),
            probes_view(probes@),
            args@.len() as int,
        ),
{
    let ghost a = strings_view(args@);
    let ghost p = probes_view(probes@);
    let mut resolved: Vec<String> = Vec::new();
    let mut mounts: Vec<String> = Vec::new();
    let mut i: usize = 0;
    proof {
        assert(strings_view(mounts@) =~= auto_mounts(a, p, 0));
    }
    while i < args.len()
        invariant
            i <= args.len(),
            a == strings_view(args@),
            p == probes_view(probes@),
            resolved@.len() == i,
            forall|j: int| 0 <= j < i ==> resolved@[j]@ == resolved_arg(a[j], probe_at(p, j)),
            strings_view(mounts@) == auto_mounts(a, p, i as int),
        decreases args.len() - i,
    {
        let arg = &args[i];
        assert(a[i as int] == arg@);
        let v = chars_of(arg.as_str());
        let ghost probe = probe_at(p, i as int);
        let mut out: Option<String> = None;
        if v.len() > 0 && v[0] == '-' {
        } else if i < probes.len() {
            assert(p[i as int] == probes@[i as int]@);
            match &probes[i].canonical {
                Some(abs) => {
                    match parent_of(abs.as_str()) {
                        Some(dir) => {
                            add_mount(&mut mounts, dir);
                        },
                        None => {},
                    }
                    out = Some(abs.clone());
                },
                None => {
                    if chars_contain(&v, '/') || chars_contain(&v, '.') {
                        match &probes[i].canonical_parent {
                            Some(dir) => {
                                add_mount(&mut mounts, dir.clone());
                                match file_name_of(arg.as_str()) {
                                    Some(name) => {
                                        out = Some(join_path(dir.as_str(), name.as_str()));
                                    },
                                    None => {},
                                }
                            },
                            None => {},
                        }
                    }
                },
            }
        }
        let word = match out {
            Some(w) => w,
            None => arg.clone(),
        };
        assert(word@ == resolved_arg(a[i as int], probe));
        resolved.push(word);
        i += 1;
    }
    proof {
        assert(strings_view(resolved@) =~= resolved_args(a, p));
    }
    (resolved, mounts)
}

/// A flag keeps its place and its text, whatever the file system holds,
/// and no directory is mounted for it.
pub proof fn lemma_flags_pass_through(args: Seq<Seq<char>>, probes: Seq<ProbeFacts>, i: int)
    requires
        0 <= i < args.len(),
        is_flag(args[i]),
    ensures
        resolved_args(args, probes).len() == args.len(),
        resolved_args(args, probes)[i] == args[i],
        mount_for(args[i], probe_at(probes, i)) is None,
        auto_mounts(args, probes, i + 1) == auto_mounts(args, probes, i),
{
}

/// An argument that exists is replaced by its canonical path, and where it
/// is the only argument, the parent of that path is the one directory
/// mounted.
pub proof fn lemma_existing_argument(arg: Seq<char>, probe: ProbeFacts)
    requires
        !is_flag(arg),
        probe.canonical is Some,
    ensures
        resolved_args(seq![arg], seq![probe]) == seq![probe.canonical->0],
        auto_mounts(seq![arg], seq![probe], 1) == (match path_parent(probe.canonical->0) {
            Some(d) => seq![d],
            None => Seq::<Seq<char>>::empty(),
        }),
{
    let args = seq![arg];
    let probes = seq![probe];
    assert(resolved_args(args, probes) =~= seq![probe.canonical->0]);
    assert(auto_mounts(args, probes, 0) =~= Seq::<Seq<char>>::empty());
    match path_parent(probe.canonical->0) {
        Some(d) => {
            assert(!auto_mounts(args, probes, 0).contains(d));
            assert(auto_mounts(args, probes, 1) =~= seq![d]);
        },
        None => {},
    }
}

} // verus!
