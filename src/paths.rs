use vstd::prelude::*;

verus! {

/// `name` appended to `base` below it, with one separator between them where
/// `base` does not already end in one. An empty base is the current directory.
pub open spec fn join_spec(base: Seq<char>, name: Seq<char>) -> Seq<char> {
    if base.len() == 0 {
        name
    } else if base.last() == '/' {
        base + name
    } else {
        base + seq!['/'] + name
    }
}

/// Joins a relative `name` below `base`.
pub fn join_path(base: &str, name: &str) -> (r: String)
    ensures
        r@ == join_spec(base@, name@),
{
    let n = base.unicode_len();
    if n == 0 {
        String::from_str(name)
    } else if base.get_char(n - 1) == '/' {
        let r = String::from_str(base);
        r.concat(name)
    } else {
        let mut r = String::from_str(base);
        r.append("/");
        proof {
            reveal_strlit("/");
        }
        r.append(name);
        r
    }
}

/// The text without its trailing separators.
pub open spec fn trim_seps(s: Seq<char>) -> Seq<char>
    decreases s.len(),
{
    if s.len() > 0 && s.last() == '/' {
        trim_seps(s.drop_last())
    } else {
        s
    }
}

/// The index of the last separator, or -1 where there is none.
pub open spec fn last_sep(s: Seq<char>) -> int
    decreases s.len(),
{
    if s.len() == 0 {
        -1
    } else if s.last() == '/' {
        s.len() - 1
    } else {
        last_sep(s.drop_last())
    }
}

/// The directory that holds `s`: its last component and the separators round
/// it removed. The root and the empty path have none; a single relative
/// component has the empty path (the current directory).
pub open spec fn parent_spec(s: Seq<char>) -> Option<Seq<char>> {
    let t = trim_seps(s);
    if t.len() == 0 {
        None
    } else {
        let k = last_sep(t);
        if k < 0 {
            Some(Seq::empty())
        } else {
            let u = trim_seps(t.subrange(0, k));
            if u.len() == 0 {
                Some(seq!['/'])
            } else {
                Some(u)
            }
        }
    }
}

proof fn lemma_trim_seps(s: Seq<char>)
    ensures
        trim_seps(s).len() <= s.len(),
        trim_seps(s) == s.subrange(0, trim_seps(s).len() as int),
        trim_seps(s).len() > 0 ==> trim_seps(s).last() != '/',
    decreases s.len(),
{
    if s.len() > 0 && s.last() == '/' {
        lemma_trim_seps(s.drop_last());
        assert(s.drop_last().subrange(0, trim_seps(s).len() as int) =~= s.subrange(
            0,
            trim_seps(s).len() as int,
        ));
    } else {
        assert(s.subrange(0, s.len() as int) =~= s);
    }
}

proof fn lemma_last_sep(s: Seq<char>)
    ensures
        -1 <= last_sep(s) < s.len(),
        last_sep(s) >= 0 ==> s[last_sep(s)] == '/',
        forall|j: int| last_sep(s) < j < s.len() ==> s[j] != '/',
    decreases s.len(),
{
    if s.len() > 0 && s.last() != '/' {
        lemma_last_sep(s.drop_last());
        assert forall|j: int| last_sep(s) < j < s.len() implies s[j] != '/' by {
            if j < s.len() - 1 {
                assert(s.drop_last()[j] == s[j]);
            }
        }
    }
}

/// A parent is always shorter than the path it was taken from.
pub proof fn lemma_parent_shorter(s: Seq<char>)
    ensures
        parent_spec(s) matches Some(p) ==> p.len() < s.len(),
{
    let t = trim_seps(s);
    lemma_trim_seps(s);
    if t.len() > 0 {
        lemma_last_sep(t);
        let k = last_sep(t);
        if k >= 0 {
            lemma_trim_seps(t.subrange(0, k));
            assert(k < t.len() - 1);
        }
    }
}

/// The length of `s[..end]` without its trailing separators.
fn trimmed_len(s: &str, end: usize) -> (r: usize)
    requires
        end <= s@.len(),
    ensures
        r <= end,
        s@.subrange(0, r as int) == trim_seps(s@.subrange(0, end as int)),
{
    let mut e = end;
    while e > 0 && s.get_char(e - 1) == '/'
        invariant
            e <= end <= s@.len(),
            trim_seps(s@.subrange(0, e as int)) == trim_seps(s@.subrange(0, end as int)),
        decreases e,
    {
        assert(s@.subrange(0, e as int).drop_last() =~= s@.subrange(0, e - 1));
        e = e - 1;
    }
    proof {
        if e > 0 {
            assert(s@.subrange(0, e as int).last() == s@[e - 1]);
        }
    }
    e
}

/// The index of the last separator in `s[..end]`, if any.
fn last_sep_before(s: &str, end: usize) -> (r: Option<usize>)
    requires
        end <= s@.len(),
    ensures
        match r {
            Some(k) => k as int == last_sep(s@.subrange(0, end as int)),
            None => last_sep(s@.subrange(0, end as int)) < 0,
        },
{
    let mut e = end;
    while e > 0
        invariant
            e <= end <= s@.len(),
            last_sep(s@.subrange(0, e as int)) == last_sep(s@.subrange(0, end as int)),
        decreases e,
    {
        assert(s@.subrange(0, e as int).drop_last() =~= s@.subrange(0, e - 1));
        if s.get_char(e - 1) == '/' {
            return Some(e - 1);
        }
        e = e - 1;
    }
    None
}

/// The directory that holds `path`.
pub fn parent_dir(path: &str) -> (r: Option<String>)
    ensures
        match r {
            Some(p) => parent_spec(path@) == Some(p@),
            None => parent_spec(path@) is None,
        },
{
    let n = path.unicode_len();
    let t = trimmed_len(path, n);
    proof {
        assert(path@.subrange(0, n as int) =~= path@);
    }
    let ghost ts = path@.subrange(0, t as int);
    if t == 0 {
        return None;
    }
    match last_sep_before(path, t) {
        None => Some(String::new()),
        Some(k) => {
            proof {
                lemma_last_sep(ts);
            }
            let u = trimmed_len(path, k);
            proof {
                assert(ts.subrange(0, k as int) =~= path@.subrange(0, k as int));
            }
            if u == 0 {
                proof {
                    reveal_strlit("/");
                }
                Some(String::from_str("/"))
            } else {
                Some(String::from_str(path.substring_char(0, u)))
            }
        },
    }
}

/// The directories from `s` up to the last one that has no parent: `s`
/// itself first, the closest ancestor next.
pub open spec fn ancestors_of(s: Seq<char>) -> Seq<Seq<char>>
    decreases s.len(),
{
    match parent_spec(s) {
        Some(p) => if p.len() < s.len() {
            seq![s] + ancestors_of(p)
        } else {
            seq![s]
        },
        None => seq![s],
    }
}

pub open spec fn views_of(v: Seq<String>) -> Seq<Seq<char>> {
    v.map_values(|d: String| d@)
}

/// The start directory and each of its ancestors, closest first.
pub fn ancestors(start_dir: &str) -> (r: Vec<String>)
    ensures
        views_of(r@) == ancestors_of(start_dir@),
{
    let mut out: Vec<String> = Vec::new();
    let mut cur = String::from_str(start_dir);
    loop
        invariant_except_break
            views_of(out@) + ancestors_of(cur@) == ancestors_of(start_dir@),
        ensures
            views_of(out@) == ancestors_of(start_dir@),
        decreases cur@.len(),
    {
        let parent = parent_dir(cur.as_str());
        let ghost c = cur@;
        let ghost before = out@;
        proof {
            lemma_parent_shorter(c);
        }
        out.push(cur);
        proof {
            assert(views_of(out@) =~= views_of(before).push(c));
        }
        match parent {
            None => {
                proof {
                    assert(views_of(out@) =~= views_of(before) + ancestors_of(c));
                }
                break ;
            },
            Some(p) => {
                proof {
                    assert(views_of(before) + ancestors_of(c) =~= views_of(out@) + ancestors_of(
                        p@,
                    ));
                }
                cur = p;
            },
        }
    }
    out
}

/// Where a project keeps its marker file, below its root.
pub open spec fn marker_path_spec(dir: Seq<char>) -> Seq<char> {
    join_spec(join_spec(dir, "ProjectSettings"@), "ProjectVersion.txt"@)
}

/// The path whose existence marks `dir` as a project root.
pub fn marker_path(dir: &str) -> (r: String)
    ensures
        r@ == marker_path_spec(dir@),
{
    let settings = join_path(dir, "ProjectSettings");
    join_path(settings.as_str(), "ProjectVersion.txt")
}

/// Where the editor server of a project listens, below its root.
pub open spec fn pipe_path_spec(root: Seq<char>) -> Seq<char> {
    join_spec(join_spec(root, "Temp"@), "adapter_pipe"@)
}

/// The endpoint of the editor server of the project at `unity_root`.
pub fn get_unity_adapter_pipe(unity_root: &str) -> (r: String)
    ensures
        r@ == pipe_path_spec(unity_root@),
{
    let temp = join_path(unity_root, "Temp");
    join_path(temp.as_str(), "adapter_pipe")
}

/// The first of `dirs`, from index `i` on, whose mark is set.
pub open spec fn first_marked(dirs: Seq<Seq<char>>, marks: Seq<bool>, i: int) -> Option<Seq<char>>
    decreases dirs.len() - i,
{
    if i < 0 || i >= dirs.len() || i >= marks.len() {
        None
    } else if marks[i] {
        Some(dirs[i])
    } else {
        first_marked(dirs, marks, i + 1)
    }
}

/// The closest of `dirs` (ancestors, closest first) whose marker exists, where
/// `has_marker[i]` tells whether the marker of `dirs[i]` exists.
pub fn find_unity_root(dirs: &Vec<String>, has_marker: &Vec<bool>) -> (r: Option<String>)
    requires
        dirs.len() == has_marker.len(),
    ensures
        r matches Some(d) ==> first_marked(views_of(dirs@), has_marker@, 0) == Some(d@),
        r is None ==> first_marked(views_of(dirs@), has_marker@, 0) is None,
{
    let mut i: usize = 0;
    while i < dirs.len()
        invariant
            i <= dirs.len() == has_marker.len(),
            first_marked(views_of(dirs@), has_marker@, 0) == first_marked(
                views_of(dirs@),
                has_marker@,
                i as int,
            ),
        decreases dirs.len() - i,
    {
        if has_marker[i] {
            let d = dirs[i].clone();
            return Some(d);
        }
        i = i + 1;
    }
    None
}

/// The project root found from `start` where `existing` is the set of paths
/// that exist: the closest ancestor whose marker exists.
pub open spec fn locate(start: Seq<char>, existing: Set<Seq<char>>) -> Option<Seq<char>> {
    let dirs = ancestors_of(start);
    first_marked(dirs, dirs.map_values(|d: Seq<char>| existing.contains(marker_path_spec(d))), 0)
}

proof fn lemma_first_marked_none(dirs: Seq<Seq<char>>, marks: Seq<bool>, i: int)
    requires
        0 <= i,
        forall|j: int| i <= j < marks.len() ==> !marks[j],
    ensures
        first_marked(dirs, marks, i) is None,
    decreases dirs.len() - i,
{
    if i < dirs.len() && i < marks.len() {
        lemma_first_marked_none(dirs, marks, i + 1);
    }
}

/// Where no directory from `start` up to the root holds the marker, no
/// project root is found.
pub proof fn lemma_no_marker_no_root(start: Seq<char>, existing: Set<Seq<char>>)
    requires
        forall|d: Seq<char>| #[trigger]
            ancestors_of(start).contains(d) ==> !existing.contains(marker_path_spec(d)),
    ensures
        locate(start, existing) is None,
{
    let dirs = ancestors_of(start);
    let marks = dirs.map_values(|d: Seq<char>| existing.contains(marker_path_spec(d)));
    assert forall|j: int| 0 <= j < marks.len() implies !marks[j] by {
        assert(dirs.contains(dirs[j]));
    }
    lemma_first_marked_none(dirs, marks, 0);
}

proof fn lemma_first_marked_some(dirs: Seq<Seq<char>>, marks: Seq<bool>, i: int)
    requires
        0 <= i,
        first_marked(dirs, marks, i) is Some,
    ensures
        exists|k: int|
            i <= k < dirs.len() && k < marks.len() && #[trigger] marks[k] && dirs[k]
                == first_marked(dirs, marks, i)->0 && forall|j: int| i <= j < k ==> !marks[j],
    decreases dirs.len() - i,
{
    if !marks[i] {
        lemma_first_marked_some(dirs, marks, i + 1);
        let k = choose|k: int|
            i + 1 <= k < dirs.len() && k < marks.len() && #[trigger] marks[k] && dirs[k]
                == first_marked(dirs, marks, i + 1)->0 && forall|j: int| i + 1 <= j < k ==> !marks[j];
        assert(forall|j: int| i <= j < k ==> !marks[j]);
    } else {
        assert(forall|j: int| i <= j < i ==> !marks[j]);
    }
}

/// A root that is found is one of the start's ancestors (the start itself
/// included) whose marker exists, and no closer ancestor has one.
pub proof fn lemma_root_is_closest_marked(start: Seq<char>, existing: Set<Seq<char>>)
    requires
        locate(start, existing) is Some,
    ensures
        exists|k: int|
            0 <= k < ancestors_of(start).len() && #[trigger] ancestors_of(start)[k] == locate(
                start,
                existing,
            )->0 && existing.contains(marker_path_spec(ancestors_of(start)[k])) && forall|j: int|
                0 <= j < k ==> !existing.contains(marker_path_spec(ancestors_of(start)[j])),
{
    let dirs = ancestors_of(start);
    let marks = dirs.map_values(|d: Seq<char>| existing.contains(marker_path_spec(d)));
    lemma_first_marked_some(dirs, marks, 0);
    let k = choose|k: int|
        0 <= k < dirs.len() && k < marks.len() && #[trigger] marks[k] && dirs[k] == first_marked(
            dirs,
            marks,
            0,
        )->0 && forall|j: int| 0 <= j < k ==> !marks[j];
    assert forall|j: int| 0 <= j < k implies !existing.contains(marker_path_spec(dirs[j])) by {
        assert(!marks[j]);
    }
    assert(marks[k]);
}

/// Where no directory's mark is set, no root is chosen: `find_unity_root`
/// then returns `None` after looking at each directory once.
pub proof fn lemma_no_mark_no_root(dirs: Seq<Seq<char>>, marks: Seq<bool>)
    requires
        forall|j: int| 0 <= j < marks.len() ==> !marks[j],
    ensures
        first_marked(dirs, marks, 0) is None,
{
    lemma_first_marked_none(dirs, marks, 0);
}

} // verus!
