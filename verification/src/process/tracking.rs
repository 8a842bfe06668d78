//! Which running processes belong to a tracked program: the launched child and its
//! descendants, and processes whose executable or name matches, minus those that
//! were already running before.

use crate::text;
use std::collections::{HashMap, HashSet};
use vstd::prelude::*;

verus! {

broadcast use vstd::std_specs::hash::group_hash_axioms;

/// How often the process list is read, in milliseconds.
pub const DEFAULT_POLL_INTERVAL_MS: u64 = 1000;

/// How long no tracked process must run before tracking ends, in milliseconds.
pub const DEFAULT_EXIT_SETTLE_MS: u64 = 30000;

// ---------------------------------------------------------------------------
// Names and paths
// ---------------------------------------------------------------------------

/// A process name as compared: trimmed, without surrounding quotes, in lower case.
pub open spec fn normalized_name(name: Seq<char>) -> Seq<char> {
    text::lower(text::trim_char(text::trim(name), '"'))
}

/// A path as compared: `/` written as `\`, without surrounding quotes, in lower case.
pub open spec fn normalized_path(path: Seq<char>) -> Seq<char> {
    text::lower(text::trim_char(text::replace_char(path, '/', '\\'), '"'))
}

/// Normalizes a process name for comparison.
pub fn normalize_process_name(name: &str) -> (r: String)
    ensures
        r@ == normalized_name(name@),
{
    let t = text::trim_str(name);
    let u = text::trim_char_str(t.as_str(), '"');
    text::to_lower(u.as_str())
}

fn replace_slashes(s: &str) -> (r: String)
    ensures
        r@ == text::replace_char(s@, '/', '\\'),
{
    let v = text::chars_of(s);
    let mut out = String::new();
    let mut i: usize = 0;
    while i < v.len()
        invariant
            v@ == s@,
            0 <= i <= v@.len(),
            out@ =~= text::replace_char(v@.take(i as int), '/', '\\'),
        decreases v.len() - i,
    {
        let c = if v[i] == '/' {
            '\\'
        } else {
            v[i]
        };
        text::push_char(&mut out, c);
        proof {
            assert(v@.take(i + 1) =~= v@.take(i as int).push(v@[i as int]));
        }
        i = i + 1;
    }
    proof {
        assert(v@.take(v@.len() as int) =~= v@);
    }
    out
}

/// Normalizes a path for comparison.
pub fn normalize_process_path(path: &str) -> (r: String)
    ensures
        r@ == normalized_path(path@),
{
    let a = replace_slashes(path);
    let b = text::trim_char_str(a.as_str(), '"');
    text::to_lower(b.as_str())
}

/// Whether two paths name the same executable once normalized.
pub fn same_process_path(left: &str, right: &str) -> (r: bool)
    ensures
        r == (normalized_path(left@) == normalized_path(right@)),
{
    let a = normalize_process_path(left);
    let b = normalize_process_path(right);
    text::str_eq(a.as_str(), b.as_str())
}

/// The part of a path after its last `/`.
pub open spec fn last_segment(path: Seq<char>) -> Seq<char> {
    match text::rfind(path, '/') {
        Some(k) => path.skip(k + 1 as int),
        None => path,
    }
}

/// A path without the trailing separators and trailing `.` components that
/// `Path::components` leaves out.
pub open spec fn trimmed_path(p: Seq<char>) -> Seq<char>
    decreases p.len(),
{
    if p.len() > 0 && p.last() == '/' {
        trimmed_path(p.drop_last())
    } else if p.len() >= 2 && p.last() == '.' && p[p.len() - 2] == '/' {
        trimmed_path(p.take(p.len() - 2))
    } else {
        p
    }
}

/// The file name of a path where every platform agrees on it: the path holds no
/// backslash or `:` and does not begin with `//` (so it has no prefix and only `/`
/// separates), and, once trailing separators and `.` components are left out, its
/// part after the last `/` is a plain name, not empty, `.` or `..`. Then that part is
/// the path's last component. Elsewhere nothing is known.
pub open spec fn known_file_name(path: Seq<char>) -> Option<Seq<char>> {
    let s = last_segment(trimmed_path(path));
    if !path.contains('\\') && !path.contains(':') && !(path.len() >= 2 && path[0] == '/' && path[1] == '/')
        && s.len() > 0 && s != "."@ && s != ".."@ {
        Some(s)
    } else {
        None
    }
}

/// The stem of a file name, as `Path::file_stem` documents it: the whole name when it
/// has no `.` or its only `.` is the first character, else the part before its last `.`.
pub open spec fn stem_of_name(name: Seq<char>) -> Seq<char> {
    match text::rfind(name, '.') {
        Some(k) => if k == 0 {
            name
        } else {
            name.take(k as int)
        },
        None => name,
    }
}

/// Whether `name` can be what `Path::file_name` gives for `path`.
pub open spec fn name_fits(path: Seq<char>, name: Option<Seq<char>>) -> bool {
    known_file_name(path) matches Some(k) ==> name == Some(k)
}

/// Whether `stem` can be what `Path::file_stem` gives for `path`.
pub open spec fn stem_fits(path: Seq<char>, stem: Option<Seq<char>>) -> bool {
    known_file_name(path) matches Some(k) ==> stem == Some(stem_of_name(k))
}

/// The final component of a path, by `Path::file_name`. Where every platform agrees
/// on it (see `known_file_name`) it is that component; elsewhere what counts as a
/// separator or a prefix depends on the platform, and nothing more is stated.
#[verifier::external_body]
pub(crate) fn file_name_of(path: &str) -> (r: Option<String>)
    ensures
        name_fits(path@, crate::capture::model::opt_view(r)),
{
    std::path::Path::new(path).file_name().map(|n| n.to_string_lossy().into_owned())
}

/// The final component of a path without its extension, by `Path::file_stem`. Where
/// the file name is known on every platform, the stem is that name cut as
/// `stem_of_name` says; elsewhere nothing more is stated.
#[verifier::external_body]
fn file_stem_of(path: &str) -> (r: Option<String>)
    ensures
        stem_fits(path@, crate::capture::model::opt_view(r)),
{
    std::path::Path::new(path).file_stem().map(|n| n.to_string_lossy().into_owned())
}

/// Whether a list of paths holds one that names the same executable as `p`.
pub open spec fn has_same_path(paths: Seq<Seq<char>>, p: Seq<char>) -> bool {
    exists|i: int| 0 <= i < paths.len() && normalized_path(#[trigger] paths[i]) == normalized_path(p)
}

/// The paths with `p` added unless an equivalent one is there.
pub open spec fn with_path(paths: Seq<Seq<char>>, p: Seq<char>) -> Seq<Seq<char>> {
    if has_same_path(paths, p) {
        paths
    } else {
        paths.push(p)
    }
}

fn push_unique_path(paths: &mut Vec<String>, path: String)
    ensures
        text::views(final(paths)@) == with_path(text::views(old(paths)@), path@),
{
    let ghost ps = text::views(paths@);
    let mut i: usize = 0;
    while i < paths.len()
        invariant
            0 <= i <= paths@.len(),
            ps == text::views(paths@),
            forall|j: int| 0 <= j < i ==> normalized_path(#[trigger] ps[j]) != normalized_path(path@),
        decreases paths.len() - i,
    {
        if same_process_path(paths[i].as_str(), path.as_str()) {
            proof {
                assert(ps[i as int] == paths@[i as int]@);
                assert(has_same_path(ps, path@));
            }
            return;
        }
        proof {
            assert(ps[i as int] == paths@[i as int]@);
        }
        i = i + 1;
    }
    let ghost before = paths@;
    paths.push(path);
    proof {
        assert(!has_same_path(ps, path@));
        assert(text::views(paths@) =~= ps.push(path@));
    }
}

/// Whether a list of strings holds `s`.
fn contains_string(v: &Vec<String>, s: &str) -> (r: bool)
    ensures
        r == text::views(v@).contains(s@),
{
    let mut i: usize = 0;
    while i < v.len()
        invariant
            0 <= i <= v@.len(),
            forall|j: int| 0 <= j < i ==> v@[j]@ != s@,
        decreases v.len() - i,
    {
        if text::str_eq(v[i].as_str(), s) {
            proof {
                assert(text::views(v@)[i as int] == s@);
            }
            return true;
        }
        i = i + 1;
    }
    proof {
        if text::views(v@).contains(s@) {
            let j = choose|j: int| 0 <= j < text::views(v@).len() && text::views(v@)[j] == s@;
            assert(v@[j]@ == s@);
        }
    }
    false
}

/// The names with `n` added unless it is there already.
pub open spec fn with_name(names: Seq<Seq<char>>, n: Seq<char>) -> Seq<Seq<char>> {
    if names.contains(n) {
        names
    } else {
        names.push(n)
    }
}

fn push_unique_name(names: &mut Vec<String>, name: String)
    ensures
        text::views(final(names)@) == with_name(text::views(old(names)@), name@),
{
    if !contains_string(names, name.as_str()) {
        let ghost before = text::views(names@);
        names.push(name);
        proof {
            assert(text::views(names@) =~= before.push(name@));
        }
    }
}

// ---------------------------------------------------------------------------
// Configuration
// ---------------------------------------------------------------------------

/// The model of a tracking configuration.
pub struct TrackingConfigModel {
    pub paths: Seq<Seq<char>>,
    pub names: Seq<Seq<char>>,
    pub label: Option<Seq<char>>,
    pub poll_interval_ms: u64,
    pub exit_settle_ms: u64,
}

/// Which executables and process names to track, the label shown for them, and the
/// polling and settling times.
#[derive(Debug, Clone)]
pub struct ProcessTrackingConfig {
    executable_paths: Vec<String>,
    process_names: Vec<String>,
    label: Option<String>,
    poll_interval_ms: u64,
    exit_settle_ms: u64,
}

impl View for ProcessTrackingConfig {
    type V = TrackingConfigModel;

    closed spec fn view(&self) -> TrackingConfigModel {
        TrackingConfigModel {
            paths: text::views(self.executable_paths@),
            names: text::views(self.process_names@),
            label: crate::capture::model::opt_view(self.label),
            poll_interval_ms: self.poll_interval_ms,
            exit_settle_ms: self.exit_settle_ms,
        }
    }
}

/// The model of the configuration that tracks nothing yet.
pub open spec fn default_tracking() -> TrackingConfigModel {
    TrackingConfigModel {
        paths: Seq::empty(),
        names: Seq::empty(),
        label: None,
        poll_interval_ms: DEFAULT_POLL_INTERVAL_MS,
        exit_settle_ms: DEFAULT_EXIT_SETTLE_MS,
    }
}

impl Default for ProcessTrackingConfig {
    fn default() -> (r: Self)
        ensures
            r@ == default_tracking(),
            r@.paths.len() == 0,
            r@.names.len() == 0,
            r@.label is None,
            r@.poll_interval_ms == DEFAULT_POLL_INTERVAL_MS,
            r@.exit_settle_ms == DEFAULT_EXIT_SETTLE_MS,
    {
        let r = ProcessTrackingConfig {
            executable_paths: Vec::new(),
            process_names: Vec::new(),
            label: None,
            poll_interval_ms: DEFAULT_POLL_INTERVAL_MS,
            exit_settle_ms: DEFAULT_EXIT_SETTLE_MS,
        };
        assert(r@.paths =~= Seq::<Seq<char>>::empty());
        assert(r@.names =~= Seq::<Seq<char>>::empty());
        r
    }
}

/// The names a name adds: its normalized form, unless that is empty.
pub open spec fn name_added(names: Seq<Seq<char>>, name: Seq<char>) -> Seq<Seq<char>> {
    let n = normalized_name(name);
    if n.len() == 0 {
        names
    } else {
        with_name(names, n)
    }
}

/// The process names after adding a path's file name and stem, given what
/// `Path::file_name` and `Path::file_stem` gave for it.
pub open spec fn names_from_path_added(
    names: Seq<Seq<char>>,
    file_name: Option<Seq<char>>,
    file_stem: Option<Seq<char>>,
) -> Seq<Seq<char>> {
    let names1 = match file_name {
        Some(n) => name_added(names, n),
        None => names,
    };
    match file_stem {
        Some(s) => name_added(names1, s),
        None => names1,
    }
}

/// The configuration after tracking a path, given what `Path::file_name` and
/// `Path::file_stem` gave for it: the path, the file name and stem as process names,
/// and the stem as the label if there was none and it is not empty.
pub open spec fn path_added(
    c: TrackingConfigModel,
    path: Seq<char>,
    file_name: Option<Seq<char>>,
    file_stem: Option<Seq<char>>,
) -> TrackingConfigModel {
    if path.len() == 0 {
        c
    } else {
        let names1 = match file_name {
            Some(n) => name_added(c.names, n),
            None => c.names,
        };
        let names2 = match file_stem {
            Some(s) => name_added(names1, s),
            None => names1,
        };
        TrackingConfigModel {
            paths: with_path(c.paths, path),
            names: names2,
            label: if c.label is None {
                match file_stem {
                    Some(s) => if s.len() > 0 {
                        Some(s)
                    } else {
                        None
                    },
                    None => None,
                }
            } else {
                c.label
            },
            ..c
        }
    }
}

impl ProcessTrackingConfig {
    /// Tracks the program that a command line runs.
    pub fn for_command(command: &[String]) -> (r: Self)
        ensures
            command@.len() == 0 ==> r@.paths.len() == 0 && r@.names.len() == 0 && r@.label is None,
            command@.len() > 0 ==> exists|n: Option<Seq<char>>, s: Option<Seq<char>>|
                name_fits(command@[0]@, n) && stem_fits(command@[0]@, s) && r@ == path_added(
                    TrackingConfigModel {
                        paths: Seq::empty(),
                        names: Seq::empty(),
                        label: None,
                        poll_interval_ms: DEFAULT_POLL_INTERVAL_MS,
                        exit_settle_ms: DEFAULT_EXIT_SETTLE_MS,
                    },
                    command@[0]@,
                    n,
                    s,
                ),
    {
        let mut config = ProcessTrackingConfig::default();
        proof {
            assert(config@.paths =~= Seq::<Seq<char>>::empty());
            assert(config@.names =~= Seq::<Seq<char>>::empty());
        }
        if command.len() > 0 {
            config.add_target_path(command[0].as_str());
        }
        config
    }

    /// Adds a process name, normalized; empty names and names already there are
    /// left out.
    pub fn add_process_name(&mut self, name: &str)
        ensures
            final(self)@ == (TrackingConfigModel { names: name_added(old(self)@.names, name@), ..old(self)@ }),
    {
        let n = normalize_process_name(name);
        if n.as_str().is_empty() {
            return;
        }
        push_unique_name(&mut self.process_names, n);
    }

    /// Adds a path's file name and stem, as `Path` gives them, as process names.
    pub fn add_process_names_from_path(&mut self, path: &str)
        ensures
            exists|n: Option<Seq<char>>, st: Option<Seq<char>>|
                name_fits(path@, n) && stem_fits(path@, st) && final(self)@ == (TrackingConfigModel {
                    names: #[trigger] names_from_path_added(old(self)@.names, n, st),
                    ..old(self)@
                }),
    {
        let n = file_name_of(path);
        let st = file_stem_of(path);
        let ghost nv = crate::capture::model::opt_view(n);
        let ghost sv = crate::capture::model::opt_view(st);
        match &n {
            Some(x) => self.add_process_name(x.as_str()),
            None => {},
        }
        match &st {
            Some(x) => self.add_process_name(x.as_str()),
            None => {},
        }
        assert(final(self)@ == (TrackingConfigModel {
            names: names_from_path_added(old(self)@.names, nv, sv),
            ..old(self)@
        }));
    }

    /// Tracks a path, with the file name and stem that `Path` gave for it.
    pub fn add_target_path_with(&mut self, path: &str, file_name: Option<String>, file_stem: Option<String>)
        ensures
            final(self)@ == path_added(
                old(self)@,
                path@,
                crate::capture::model::opt_view(file_name),
                crate::capture::model::opt_view(file_stem),
            ),
    {
        if path.is_empty() {
            return;
        }
        push_unique_path(&mut self.executable_paths, text::to_owned(path));
        match &file_name {
            Some(n) => self.add_process_name(n.as_str()),
            None => {},
        }
        match &file_stem {
            Some(s) => self.add_process_name(s.as_str()),
            None => {},
        }
        if self.label.is_none() {
            match file_stem {
                Some(s) => {
                    if !s.as_str().is_empty() {
                        self.label = Some(s);
                    }
                },
                None => {},
            }
        }
    }

    /// Tracks an executable path: the path itself, its file name and stem as process
    /// names, and the stem as the label if there is none.
    pub fn add_target_path(&mut self, path: &str)
        ensures
            exists|n: Option<Seq<char>>, s: Option<Seq<char>>|
                name_fits(path@, n) && stem_fits(path@, s) && #[trigger] path_added(old(self)@, path@, n, s)
                    == final(self)@,
    {
        let n = file_name_of(path);
        let s = file_stem_of(path);
        let ghost nv = crate::capture::model::opt_view(n);
        let ghost sv = crate::capture::model::opt_view(s);
        self.add_target_path_with(path, n, s);
        proof {
            assert(final(self)@ == path_added(old(self)@, path@, nv, sv));
        }
    }

    /// Sets the label unless it is blank.
    pub fn set_label(&mut self, label: String)
        ensures
            text::trim(label@).len() == 0 ==> final(self)@ == old(self)@,
            text::trim(label@).len() > 0 ==> final(self)@ == (TrackingConfigModel {
                label: Some(label@),
                ..old(self)@
            }),
    {
        let t = text::trim_str(label.as_str());
        if !t.as_str().is_empty() {
            self.label = Some(label);
        }
    }

    /// Adds another configuration's paths and names, takes its label if this one has
    /// none, and takes its times.
    pub fn merge(&mut self, other: ProcessTrackingConfig)
        ensures
            final(self)@.paths == merged_paths(old(self)@.paths, other@.paths),
            final(self)@.names == merged_names(old(self)@.names, other@.names),
            final(self)@.label == (if old(self)@.label is None {
                other@.label
            } else {
                old(self)@.label
            }),
            final(self)@.poll_interval_ms == other@.poll_interval_ms,
            final(self)@.exit_settle_ms == other@.exit_settle_ms,
    {
        let ghost op = text::views(other.executable_paths@);
        let ghost on = text::views(other.process_names@);
        let ghost sp = text::views(self.executable_paths@);
        let ghost sn = text::views(self.process_names@);
        let mut i: usize = 0;
        proof {
            assert(op.take(0) =~= Seq::<Seq<char>>::empty());
        }
        while i < other.executable_paths.len()
            invariant
                0 <= i <= other.executable_paths@.len(),
                op == text::views(other.executable_paths@),
                text::views(self.executable_paths@) == merged_paths(sp, op.take(i as int)),
                text::views(self.process_names@) == sn,
                self.label == old(self).label,
                self.poll_interval_ms == old(self).poll_interval_ms,
                self.exit_settle_ms == old(self).exit_settle_ms,
            decreases other.executable_paths.len() - i,
        {
            push_unique_path(&mut self.executable_paths, other.executable_paths[i].clone());
            proof {
                assert(op.take(i + 1).drop_last() =~= op.take(i as int));
            }
            i = i + 1;
        }
        proof {
            assert(op.take(other.executable_paths@.len() as int) =~= op);
        }
        let mut k: usize = 0;
        proof {
            assert(on.take(0) =~= Seq::<Seq<char>>::empty());
        }
        while k < other.process_names.len()
            invariant
                0 <= k <= other.process_names@.len(),
                on == text::views(other.process_names@),
                text::views(self.process_names@) == merged_names(sn, on.take(k as int)),
                text::views(self.executable_paths@) == merged_paths(sp, op),
                self.label == old(self).label,
            decreases other.process_names.len() - k,
        {
            push_unique_name(&mut self.process_names, other.process_names[k].clone());
            proof {
                assert(on.take(k + 1).drop_last() =~= on.take(k as int));
            }
            k = k + 1;
        }
        proof {
            assert(on.take(other.process_names@.len() as int) =~= on);
        }
        if self.label.is_none() {
            self.label = other.label;
        }
        self.poll_interval_ms = other.poll_interval_ms;
        self.exit_settle_ms = other.exit_settle_ms;
    }

    /// Whether nothing is tracked by path or name.
    pub fn is_empty(&self) -> (r: bool)
        ensures
            r == (self@.paths.len() == 0 && self@.names.len() == 0),
    {
        self.executable_paths.len() == 0 && self.process_names.len() == 0
    }

    /// The label shown for the tracked program.
    pub fn label(&self) -> (r: Option<&str>)
        ensures
            match r {
                Some(s) => self@.label == Some(s@),
                None => self@.label is None,
            },
    {
        match &self.label {
            Some(l) => Some(l.as_str()),
            None => None,
        }
    }

    /// How long no tracked process must run before tracking ends, in milliseconds.
    pub fn exit_settle(&self) -> (r: u64)
        ensures
            r == self@.exit_settle_ms,
    {
        self.exit_settle_ms
    }

    /// How often the process list is read, in milliseconds.
    pub fn poll_interval(&self) -> (r: u64)
        ensures
            r == self@.poll_interval_ms,
    {
        self.poll_interval_ms
    }
}

/// Paths added one by one, each unless an equivalent one is there.
pub open spec fn merged_paths(ps: Seq<Seq<char>>, more: Seq<Seq<char>>) -> Seq<Seq<char>>
    decreases more.len(),
{
    if more.len() == 0 {
        ps
    } else {
        with_path(merged_paths(ps, more.drop_last()), more.last())
    }
}

/// Names added one by one, each unless it is there.
pub open spec fn merged_names(ns: Seq<Seq<char>>, more: Seq<Seq<char>>) -> Seq<Seq<char>>
    decreases more.len(),
{
    if more.len() == 0 {
        ns
    } else {
        with_name(merged_names(ns, more.drop_last()), more.last())
    }
}

// ---------------------------------------------------------------------------
// Processes
// ---------------------------------------------------------------------------

/// A running process as the process list shows it.
#[derive(Debug, Clone, PartialEq, Eq)]
pub struct ProcessInfo {
    pub pid: u32,
    pub parent_pid: Option<u32>,
    pub name: String,
    pub executable_path: Option<String>,
}

impl ProcessInfo {
    fn copy(&self) -> (r: Self)
        ensures
            r == *self,
    {
        ProcessInfo {
            pid: self.pid,
            parent_pid: self.parent_pid,
            name: self.name.clone(),
            executable_path: match &self.executable_path {
                Some(p) => Some(p.clone()),
                None => None,
            },
        }
    }
}

/// Whether a process's name matches a tracked name: its normalized name, or the
/// normalized stem that `Path::file_stem` gave for its name.
pub open spec fn name_matches_given(name: Seq<char>, stem: Option<Seq<char>>, candidate: Seq<char>) -> bool {
    normalized_name(name) == candidate || (stem matches Some(s) && normalized_name(s) == candidate)
}

/// Whether a process matches the configuration, given its name's stem.
pub open spec fn config_matches(c: TrackingConfigModel, p: ProcessInfo, stem: Option<Seq<char>>) -> bool {
    (p.executable_path matches Some(path) && has_same_path(c.paths, path@)) || exists|i: int|
        0 <= i < c.names.len() && name_matches_given(p.name@, stem, #[trigger] c.names[i])
}

impl ProcessTrackingConfig {
    fn matches_given(&self, process: &ProcessInfo, stem: &Option<String>) -> (r: bool)
        ensures
            r == config_matches(self@, *process, crate::capture::model::opt_view(*stem)),
    {
        let ghost c = self@;
        let ghost sv = crate::capture::model::opt_view(*stem);
        let path_matches = match &process.executable_path {
            Some(path) => {
                let mut found = false;
                let mut i: usize = 0;
                while i < self.executable_paths.len()
                    invariant
                        0 <= i <= self.executable_paths@.len(),
                        c == self@,
                        c.paths == text::views(self.executable_paths@),
                        found == exists|j: int|
                            0 <= j < i && normalized_path(#[trigger] c.paths[j]) == normalized_path(path@),
                    decreases self.executable_paths.len() - i,
                {
                    if same_process_path(self.executable_paths[i].as_str(), path.as_str()) {
                        found = true;
                    }
                    proof {
                        assert(c.paths[i as int] == self.executable_paths@[i as int]@);
                    }
                    i = i + 1;
                }
                found
            },
            None => false,
        };
        if path_matches {
            return true;
        }
        let own = normalize_process_name(process.name.as_str());
        let stem_norm = match stem {
            Some(s) => Some(normalize_process_name(s.as_str())),
            None => None,
        };
        let mut k: usize = 0;
        while k < self.process_names.len()
            invariant
                0 <= k <= self.process_names@.len(),
                c == self@,
                c.names == text::views(self.process_names@),
                own@ == normalized_name(process.name@),
                sv == crate::capture::model::opt_view(*stem),
                match stem_norm {
                    Some(x) => sv matches Some(s) && x@ == normalized_name(s),
                    None => sv is None,
                },
                forall|j: int| 0 <= j < k ==> !name_matches_given(process.name@, sv, #[trigger] c.names[j]),
            decreases self.process_names.len() - k,
        {
            let cand = self.process_names[k].as_str();
            let hit = text::str_eq(own.as_str(), cand) || match &stem_norm {
                Some(x) => text::str_eq(x.as_str(), cand),
                None => false,
            };
            proof {
                assert(c.names[k as int] == self.process_names@[k as int]@);
            }
            if hit {
                proof {
                    assert(name_matches_given(process.name@, sv, c.names[k as int]));
                    assert(0 <= k < c.names.len());
                    assert(config_matches(c, *process, sv));
                }
                return true;
            }
            k = k + 1;
        }
        false
    }
}

/// The `k`-th ancestor of a process by its parent links: itself for 0, `None` once a
/// process has no known parent.
pub open spec fn ancestor_at(parents: Map<u32, u32>, pid: u32, k: nat) -> Option<u32>
    decreases k,
{
    if k == 0 {
        Some(pid)
    } else {
        match ancestor_at(parents, pid, (k - 1) as nat) {
            Some(c) => if parents.contains_key(c) {
                Some(parents[c])
            } else {
                None
            },
            None => None,
        }
    }
}

/// Whether `ancestor` is a parent, grandparent, and so on, of `pid`.
pub open spec fn descends_from(parents: Map<u32, u32>, pid: u32, ancestor: u32) -> bool {
    exists|k: nat| k >= 1 && #[trigger] ancestor_at(parents, pid, k) == Some(ancestor)
}

proof fn lemma_none_stays(parents: Map<u32, u32>, pid: u32, j: nat, k: nat)
    requires
        j <= k,
        ancestor_at(parents, pid, j) is None,
    ensures
        ancestor_at(parents, pid, k) is None,
    decreases k - j,
{
    if j < k {
        lemma_none_stays(parents, pid, j, (k - 1) as nat);
    }
}

proof fn lemma_periodic(parents: Map<u32, u32>, pid: u32, i: nat, j: nat, t: nat)
    requires
        ancestor_at(parents, pid, i) == ancestor_at(parents, pid, j),
    ensures
        ancestor_at(parents, pid, i + t) == ancestor_at(parents, pid, j + t),
    decreases t,
{
    if t > 0 {
        lemma_periodic(parents, pid, i, j, (t - 1) as nat);
    }
}

proof fn lemma_cycle_misses(parents: Map<u32, u32>, pid: u32, ancestor: u32, i: nat, j: nat, k: nat)
    requires
        i < j,
        ancestor_at(parents, pid, i) == ancestor_at(parents, pid, j),
        forall|m: nat| 1 <= m <= j + 1 ==> #[trigger] ancestor_at(parents, pid, m) != Some(ancestor),
        k >= 1,
    ensures
        ancestor_at(parents, pid, k) != Some(ancestor),
    decreases k,
{
    if k > j + 1 {
        let t = (k - j) as nat;
        lemma_periodic(parents, pid, i, j, t);
        lemma_cycle_misses(parents, pid, ancestor, i, j, i + t);
    }
}

/// Whether `ancestor` is an ancestor of `pid` by the parent links; a cycle in the
/// links ends the search.
pub fn is_descendant_of(pid: u32, ancestor: u32, parents: &HashMap<u32, u32>) -> (r: bool)
    ensures
        r == descends_from(parents@, pid, ancestor),
{
    let ghost m = parents@;
    let mut current = pid;
    let mut visited: HashSet<u32> = HashSet::new();
    let ghost mut j: nat = 0;
    loop
        invariant
            m == parents@,
            m.dom().finite(),
            ancestor_at(m, pid, j) == Some(current),
            forall|x: u32| #[trigger] visited@.contains(x) ==> m.contains_key(x),
            forall|x: u32| #[trigger] visited@.contains(x) ==> exists|i: nat| i < j && ancestor_at(m, pid, i) == Some(x),
            forall|i: nat| i < j ==> visited@.contains(#[trigger] ancestor_at(m, pid, i)->0),
            forall|i: nat| i < j ==> ancestor_at(m, pid, i) is Some,
            forall|k: nat| 1 <= k <= j ==> #[trigger] ancestor_at(m, pid, k) != Some(ancestor),
            visited@.finite(),
            visited@.len() == j,
        decreases m.dom().len() - visited@.len(),
    {
        let parent = match parents.get(&current) {
            Some(p) => *p,
            None => {
                proof {
                    assert(ancestor_at(m, pid, j + 1) is None);
                    assert forall|k: nat| k >= 1 implies #[trigger] ancestor_at(m, pid, k) != Some(ancestor) by {
                        if k > j {
                            lemma_none_stays(m, pid, j + 1, k);
                        }
                    }
                }
                return false;
            },
        };
        proof {
            assert(ancestor_at(m, pid, j + 1) == Some(parent));
        }
        if parent == ancestor {
            proof {
                assert(ancestor_at(m, pid, j + 1) == Some(ancestor));
            }
            return true;
        }
        let fresh = visited.insert(current);
        if !fresh {
            proof {
                let i = choose|i: nat| i < j && ancestor_at(m, pid, i) == Some(current);
                assert forall|k: nat| k >= 1 implies #[trigger] ancestor_at(m, pid, k) != Some(ancestor) by {
                    if k <= j + 1 {
                        if k == j + 1 {
                            assert(ancestor_at(m, pid, j + 1) == Some(parent));
                        }
                    } else {
                        lemma_cycle_misses(m, pid, ancestor, i, j, k);
                    }
                }
            }
            return false;
        }
        proof {
            assert(visited@.subset_of(m.dom()));
            vstd::set_lib::lemma_len_subset(visited@, m.dom());
            assert forall|i: nat| i < j + 1 implies visited@.contains(#[trigger] ancestor_at(m, pid, i)->0) by {
                if i == j {
                } else {
                }
            }
            assert forall|x: u32| #[trigger] visited@.contains(x) implies exists|i: nat| i < j + 1 && ancestor_at(m, pid, i) == Some(x) by {
                if x == current {
                    assert(ancestor_at(m, pid, j) == Some(x));
                }
            }
            j = j + 1;
        }
        current = parent;
    }
}


/// A process that belongs to the tracked program.
#[derive(Debug, Clone)]
pub struct TrackedProcess {
    pub pid: u32,
    pub name: String,
    pub executable_path: Option<String>,
}

/// The label of a tracked process, given the file name `Path::file_name` gave for its
/// executable: that file name when there is one and it is not empty, else its name.
pub open spec fn display_label_given(name: Seq<char>, file_name: Option<Seq<char>>) -> Seq<char> {
    match file_name {
        Some(f) => if f.len() > 0 {
            f
        } else {
            name
        },
        None => name,
    }
}

impl TrackedProcess {
    /// The label, given the file name of the executable path.
    pub fn display_label_with(&self, file_name: Option<String>) -> (r: String)
        ensures
            r@ == display_label_given(self.name@, crate::capture::model::opt_view(file_name)),
    {
        match file_name {
            Some(f) => {
                if !f.as_str().is_empty() {
                    f
                } else {
                    self.name.clone()
                }
            },
            None => self.name.clone(),
        }
    }

    /// The label shown for the process: the file name of its executable, else its name.
    pub fn display_label(&self) -> (r: String)
        ensures
            self.executable_path is None ==> r@ == self.name@,
            exists|f: Option<Seq<char>>|
                (self.executable_path matches Some(p) ==> name_fits(p@, f)) && #[trigger] display_label_given(
                    self.name@,
                    f,
                ) == r@,
    {
        let file_name = match &self.executable_path {
            Some(p) => file_name_of(p.as_str()),
            None => None,
        };
        let ghost fv = crate::capture::model::opt_view(file_name);
        let r = self.display_label_with(file_name);
        proof {
            assert(r@ == display_label_given(self.name@, fv));
        }
        r
    }
}

/// How tracking ended: how many processes were seen, and how long none ran.
#[derive(Debug, Clone)]
pub struct TrackingSummary {
    pub observed_process_count: usize,
    pub quiet_for_ms: u64,
}

/// The parent links of a process list; a later entry for the same process wins.
pub open spec fn parents_of(s: Seq<ProcessInfo>) -> Map<u32, u32>
    decreases s.len(),
{
    if s.len() == 0 {
        Map::empty()
    } else {
        let m = parents_of(s.drop_last());
        match s.last().parent_pid {
            Some(p) => m.insert(s.last().pid, p),
            None => m,
        }
    }
}

/// Whether a process is tracked: it is the child or descends from it, or it matches
/// the configuration and was not running before.
pub open spec fn selected(
    c: TrackingConfigModel,
    child: Option<u32>,
    baseline: Set<u32>,
    parents: Map<u32, u32>,
    p: ProcessInfo,
    stem: Option<Seq<char>>,
) -> bool {
    (child matches Some(cp) && (p.pid == cp || descends_from(parents, p.pid, cp))) || (
    config_matches(c, p, stem) && !baseline.contains(p.pid))
}

/// The tracked processes of a list, in order, given the stem of each one's name.
pub open spec fn selection(
    c: TrackingConfigModel,
    child: Option<u32>,
    baseline: Set<u32>,
    parents: Map<u32, u32>,
    s: Seq<ProcessInfo>,
    stems: Seq<Option<Seq<char>>>,
) -> Seq<ProcessInfo>
    decreases s.len(),
{
    if s.len() == 0 {
        Seq::empty()
    } else {
        selection(c, child, baseline, parents, s.drop_last(), stems.drop_last()) + if selected(
            c,
            child,
            baseline,
            parents,
            s.last(),
            stems.last(),
        ) {
            seq![s.last()]
        } else {
            Seq::empty()
        }
    }
}

/// The models of optional file stems.
pub open spec fn stems_view(v: Seq<Option<String>>) -> Seq<Option<Seq<char>>> {
    v.map_values(|o: Option<String>| crate::capture::model::opt_view(o))
}

fn parent_links(snapshot: &[ProcessInfo]) -> (r: HashMap<u32, u32>)
    ensures
        r@ == parents_of(snapshot@),
{
    let mut m: HashMap<u32, u32> = HashMap::new();
    let mut i: usize = 0;
    proof {
        assert(snapshot@.take(0) =~= Seq::<ProcessInfo>::empty());
        assert(m@ =~= Map::<u32, u32>::empty());
    }
    while i < snapshot.len()
        invariant
            0 <= i <= snapshot@.len(),
            m@ == parents_of(snapshot@.take(i as int)),
        decreases snapshot.len() - i,
    {
        proof {
            assert(snapshot@.take(i + 1).drop_last() =~= snapshot@.take(i as int));
        }
        match snapshot[i].parent_pid {
            Some(p) => {
                m.insert(snapshot[i].pid, p);
            },
            None => {},
        }
        i = i + 1;
    }
    proof {
        assert(snapshot@.take(snapshot@.len() as int) =~= snapshot@);
    }
    m
}

/// The tracked processes of a list, given the stem `Path::file_stem` gave for each
/// one's name.
pub fn matching_processes_given(
    config: &ProcessTrackingConfig,
    child_pid: Option<u32>,
    baseline_pids: &HashSet<u32>,
    snapshot: &[ProcessInfo],
    stems: &Vec<Option<String>>,
) -> (r: Vec<ProcessInfo>)
    requires
        stems@.len() == snapshot@.len(),
    ensures
        r@ == selection(
            config@,
            child_pid,
            baseline_pids@,
            parents_of(snapshot@),
            snapshot@,
            stems_view(stems@),
        ),
{
    let parents = parent_links(snapshot);
    let ghost sv = stems_view(stems@);
    let mut out: Vec<ProcessInfo> = Vec::new();
    let mut i: usize = 0;
    proof {
        assert(snapshot@.take(0) =~= Seq::<ProcessInfo>::empty());
    }
    while i < snapshot.len()
        invariant
            0 <= i <= snapshot@.len(),
            stems@.len() == snapshot@.len(),
            sv == stems_view(stems@),
            parents@ == parents_of(snapshot@),
            out@ == selection(
                config@,
                child_pid,
                baseline_pids@,
                parents@,
                snapshot@.take(i as int),
                sv.take(i as int),
            ),
        decreases snapshot.len() - i,
    {
        let p = &snapshot[i];
        let child_related = match child_pid {
            Some(cp) => p.pid == cp || is_descendant_of(p.pid, cp, &parents),
            None => false,
        };
        let keep = child_related || (config.matches_given(p, &stems[i]) && !baseline_pids.contains(&p.pid));
        proof {
            assert(snapshot@.take(i + 1).drop_last() =~= snapshot@.take(i as int));
            assert(sv.take(i + 1).drop_last() =~= sv.take(i as int));
            assert(sv[i as int] == crate::capture::model::opt_view(stems@[i as int]));
        }
        if keep {
            out.push(p.copy());
        }
        proof {
            assert(snapshot@.take(i + 1).last() == snapshot@[i as int]);
            assert(sv.take(i + 1).last() == sv[i as int]);
        }
        i = i + 1;
    }
    proof {
        assert(snapshot@.take(snapshot@.len() as int) =~= snapshot@);
        assert(sv.take(snapshot@.len() as int) =~= sv);
    }
    out
}

/// Whether each stem can be what `Path::file_stem` gives for the name of the process
/// at its place.
pub open spec fn stems_fit(snapshot: Seq<ProcessInfo>, stems: Seq<Option<Seq<char>>>) -> bool {
    &&& stems.len() == snapshot.len()
    &&& forall|i: int| 0 <= i < snapshot.len() ==> stem_fits(#[trigger] snapshot[i].name@, stems[i])
}

fn stems_of(snapshot: &[ProcessInfo]) -> (r: Vec<Option<String>>)
    ensures
        stems_fit(snapshot@, stems_view(r@)),
{
    let mut r: Vec<Option<String>> = Vec::new();
    let mut i: usize = 0;
    while i < snapshot.len()
        invariant
            0 <= i <= snapshot@.len(),
            r@.len() == i,
            forall|j: int| 0 <= j < i ==> stem_fits(#[trigger] snapshot@[j].name@, stems_view(r@)[j]),
        decreases snapshot.len() - i,
    {
        let st = file_stem_of(snapshot[i].name.as_str());
        r.push(st);
        proof {
            assert forall|j: int| 0 <= j < i + 1 implies stem_fits(#[trigger] snapshot@[j].name@, stems_view(r@)[j]) by {
                assert(stems_view(r@)[j] == crate::capture::model::opt_view(r@[j]));
            }
        }
        i = i + 1;
    }
    r
}

/// The tracked processes of a list: the child and its descendants, and the processes
/// that match the configuration and are not in the baseline.
pub fn matching_processes(
    config: &ProcessTrackingConfig,
    child_pid: Option<u32>,
    baseline_pids: &HashSet<u32>,
    snapshot: &[ProcessInfo],
) -> (r: Vec<ProcessInfo>)
    ensures
        exists|stems: Seq<Option<Seq<char>>>|
            stems_fit(snapshot@, stems) && r@ == selection(
                config@,
                child_pid,
                baseline_pids@,
                parents_of(snapshot@),
                snapshot@,
                stems,
            ),
{
    let stems = stems_of(snapshot);
    let ghost sv = stems_view(stems@);
    let r = matching_processes_given(config, child_pid, baseline_pids, snapshot, &stems);
    proof {
        assert(stems_fit(snapshot@, sv));
    }
    r
}

/// The model of a tracker.
pub struct TrackerModel {
    pub config: TrackingConfigModel,
    pub baseline: Set<u32>,
    pub child: Option<u32>,
    pub observed: Set<u32>,
}

/// Tracks the processes of a program between polls of the process list.
#[derive(Debug)]
pub struct ProcessTracker {
    config: ProcessTrackingConfig,
    baseline_pids: HashSet<u32>,
    child_pid: Option<u32>,
    observed_pids: HashSet<u32>,
}

impl View for ProcessTracker {
    type V = TrackerModel;

    closed spec fn view(&self) -> TrackerModel {
        TrackerModel {
            config: self.config@,
            baseline: self.baseline_pids@,
            child: self.child_pid,
            observed: self.observed_pids@,
        }
    }
}

/// The process ids of a list.
pub open spec fn pids_of(s: Seq<ProcessInfo>) -> Set<u32> {
    s.map_values(|p: ProcessInfo| p.pid).to_set()
}

fn insert_pids(set: &mut HashSet<u32>, ps: &Vec<ProcessInfo>)
    ensures
        final(set)@ == old(set)@.union(pids_of(ps@)),
{
    let mut i: usize = 0;
    let ghost start = set@;
    while i < ps.len()
        invariant
            0 <= i <= ps@.len(),
            set@ == start.union(pids_of(ps@.take(i as int))),
        decreases ps.len() - i,
    {
        set.insert(ps[i].pid);
        proof {
            let a = ps@.take(i as int).map_values(|p: ProcessInfo| p.pid);
            let b = ps@.take(i + 1).map_values(|p: ProcessInfo| p.pid);
            assert(b =~= a.push(ps@[i as int].pid));
            a.lemma_push_to_set_commute(ps@[i as int].pid);
            assert(set@ =~= start.union(pids_of(ps@.take(i + 1))));
        }
        i = i + 1;
    }
    proof {
        assert(ps@.take(ps@.len() as int) =~= ps@);
    }
}

impl ProcessTracker {
    /// A tracker with an empty baseline: every matching process counts.
    pub fn without_baseline(config: ProcessTrackingConfig) -> (r: Self)
        ensures
            r@.config == config@,
            r@.baseline == Set::<u32>::empty(),
            r@.child is None,
            r@.observed == Set::<u32>::empty(),
    {
        ProcessTracker { config, baseline_pids: HashSet::new(), child_pid: None, observed_pids: HashSet::new() }
    }

    /// A tracker whose baseline is the matching processes of a list taken before the
    /// program is launched.
    pub fn with_baseline(config: ProcessTrackingConfig, snapshot: &[ProcessInfo]) -> (r: Self)
        ensures
            r@.config == config@,
            exists|stems: Seq<Option<Seq<char>>>|
                stems.len() == snapshot@.len() && r@.baseline == pids_of(
                    selection(
                        config@,
                        None,
                        Set::empty(),
                        parents_of(snapshot@),
                        snapshot@,
                        stems,
                    ),
                ),
            r@.child is None,
            r@.observed == Set::<u32>::empty(),
    {
        let empty: HashSet<u32> = HashSet::new();
        let stems = stems_of(snapshot);
        let ghost sv = stems_view(stems@);
        let found = matching_processes_given(&config, None, &empty, snapshot, &stems);
        let mut baseline: HashSet<u32> = HashSet::new();
        insert_pids(&mut baseline, &found);
        proof {
            assert(baseline@ =~= pids_of(found@));
            assert(sv.len() == snapshot@.len());
        }
        ProcessTracker { config, baseline_pids: baseline, child_pid: None, observed_pids: HashSet::new() }
    }

    /// Records the launched child's process id; it counts as observed.
    pub fn set_child_pid(&mut self, pid: Option<u32>)
        ensures
            final(self)@.child == pid,
            final(self)@.config == old(self)@.config,
            final(self)@.baseline == old(self)@.baseline,
            final(self)@.observed == match pid {
                Some(p) => old(self)@.observed.insert(p),
                None => old(self)@.observed,
            },
    {
        self.child_pid = pid;
        match pid {
            Some(p) => {
                self.observed_pids.insert(p);
            },
            None => {},
        }
    }

    /// The tracking configuration.
    pub fn config(&self) -> (r: &ProcessTrackingConfig)
        ensures
            r@ == self@.config,
    {
        &self.config
    }

    /// The tracked processes of a fresh process list; they count as observed.
    #[verifier::spinoff_prover]
    pub fn observe(&mut self, snapshot: &[ProcessInfo]) -> (r: Vec<TrackedProcess>)
        ensures
            final(self)@.config == old(self)@.config,
            final(self)@.baseline == old(self)@.baseline,
            final(self)@.child == old(self)@.child,
            exists|stems: Seq<Option<Seq<char>>>|
                #![trigger selection(old(self)@.config, old(self)@.child, old(self)@.baseline, parents_of(snapshot@), snapshot@, stems)]
            {
                let sel = selection(
                    old(self)@.config,
                    old(self)@.child,
                    old(self)@.baseline,
                    parents_of(snapshot@),
                    snapshot@,
                    stems,
                );
                &&& stems.len() == snapshot@.len()
                &&& final(self)@.observed == old(self)@.observed.union(pids_of(sel))
                &&& r@.len() == sel.len()
                &&& forall|i: int|
                    0 <= i < sel.len() ==> (#[trigger] r@[i]).pid == sel[i].pid && r@[i].name
                        == sel[i].name && r@[i].executable_path == sel[i].executable_path
            },
    {
        let stems = stems_of(snapshot);
        let ghost sv = stems_view(stems@);
        let active = matching_processes_given(&self.config, self.child_pid, &self.baseline_pids, snapshot, &stems);
        insert_pids(&mut self.observed_pids, &active);
        let mut out: Vec<TrackedProcess> = Vec::new();
        let mut i: usize = 0;
        while i < active.len()
            invariant
                0 <= i <= active@.len(),
                out@.len() == i,
                forall|j: int|
                    0 <= j < i ==> (#[trigger] out@[j]).pid == active@[j].pid && out@[j].name
                        == active@[j].name && out@[j].executable_path == active@[j].executable_path,
            decreases active.len() - i,
        {
            let p = active[i].copy();
            out.push(TrackedProcess { pid: p.pid, name: p.name, executable_path: p.executable_path });
            i = i + 1;
        }
        proof {
            assert(sv.len() == snapshot@.len());
        }
        out
    }

    /// How many distinct processes were seen.
    pub fn observed_count(&self) -> (r: usize)
        ensures
            r == self@.observed.len(),
    {
        self.observed_pids.len()
    }
}

// ---------------------------------------------------------------------------
// Reading Linux process status, and waiting for quiet
// ---------------------------------------------------------------------------

/// Whether `) ` starts at index `i`.
pub open spec fn paren_space_at(s: Seq<char>, i: int) -> bool {
    0 <= i && i + 1 < s.len() && s[i] == ')' && s[i + 1] == ' '
}

/// The parent pid in the text of `/proc/<pid>/stat`: after the last `) ` (which
/// ends the command name), the second whitespace-separated field, as a `u32`.
pub open spec fn stat_parent_pid(s: Seq<char>) -> Option<u32> {
    if exists|i: int| paren_space_at(s, i) {
        let i = choose|i: int| paren_space_at(s, i) && forall|j: int| i < j ==> !paren_space_at(s, j);
        let fields = text::words(s.skip(i + 2));
        if fields.len() < 2 {
            None
        } else {
            match text::parse_uint(fields[1], u32::MAX as nat) {
                Some(n) => Some(n as u32),
                None => None,
            }
        }
    } else {
        None
    }
}

/// Reads the parent pid from the text of `/proc/<pid>/stat`.
pub fn parse_stat_parent_pid(stat: &str) -> (r: Option<u32>)
    ensures
        r == stat_parent_pid(stat@),
{
    let v = text::chars_of(stat);
    let mut i = v.len();
    while i >= 2
        invariant
            v@ == stat@,
            0 <= i <= v@.len(),
            forall|j: int| i - 1 <= j ==> !paren_space_at(stat@, j),
        decreases i,
    {
        if v[i - 2] == ')' && v[i - 1] == ' ' {
            let start = i;
            proof {
                assert(paren_space_at(stat@, i - 2));
                assert forall|j: int| i - 2 < j implies !paren_space_at(stat@, j) by {}
                let k = choose|k: int| paren_space_at(stat@, k) && forall|j: int| k < j ==> !paren_space_at(stat@, j);
                if k < i - 2 {
                    assert(!paren_space_at(stat@, i - 2));
                }
                assert(k == i - 2);
            }
            let rest = text::string_of(&v, start, v.len());
            assert(rest@ =~= stat@.skip(i - 2 + 2));
            let fields = text::split_ws(rest.as_str());
            if fields.len() < 2 {
                return None;
            }
            return match text::parse_uint_str(fields[1].as_str(), u32::MAX as u64) {
                Some(n) => Some(n as u32),
                None => None,
            };
        }
        i = i - 1;
    }
    proof {
        assert forall|j: int| !paren_space_at(stat@, j) by {
            if paren_space_at(stat@, j) {
                assert(j >= i - 1);
            }
        }
    }
    None
}

/// Watches for a settled quiet period: how long no tracked process has run.
#[derive(Debug)]
pub struct QuietWatch {
    pub quiet_since_ms: Option<u64>,
}

impl QuietWatch {
    /// Takes one poll at `now_ms` that found `active` tracked processes. A poll with
    /// none starts the quiet period if it has not started; one with some ends it.
    /// Once the quiet period has lasted `settle_ms`, gives how long it has lasted.
    pub fn poll(&mut self, active: usize, now_ms: u64, settle_ms: u64) -> (r: Option<u64>)
        requires
            old(self).quiet_since_ms matches Some(t) ==> t <= now_ms,
        ensures
            active > 0 ==> final(self).quiet_since_ms is None && r is None,
            active == 0 ==> {
                let since = match old(self).quiet_since_ms {
                    Some(t) => t,
                    None => now_ms,
                };
                &&& final(self).quiet_since_ms == Some(since)
                &&& r == (if now_ms - since >= settle_ms { Some((now_ms - since) as u64) } else { None::<u64> })
            },
    {
        if active > 0 {
            self.quiet_since_ms = None;
            return None;
        }
        let since = match self.quiet_since_ms {
            Some(t) => t,
            None => now_ms,
        };
        self.quiet_since_ms = Some(since);
        let quiet = now_ms - since;
        if quiet >= settle_ms {
            Some(quiet)
        } else {
            None
        }
    }
}

} // verus!
