//! The workspace document and its merge rules.
//!
//! A run recomputes the document's folder list, display name and launch
//! section from the discovered runnables while preserving hand-authored
//! sections. Free-form sections travel through the library as their
//! compactly serialized text, so the merge can drop empty placeholders
//! without interpreting anything else about them.

use vstd::prelude::*;
use vstd::string::StringExecFns;

use crate::launch::WorkspaceLaunchConfig;
use crate::launch::WorkspaceLaunchConfigV;
use crate::runnables::Runnable;
use crate::runnables::RunnableV;
use crate::text::clone_string_vec;
use crate::text::join_strings;
use crate::text::lemma_path_lt_connected;
use crate::text::lemma_path_lt_transitive;
use crate::text::path_eq;
use crate::text::path_lt;
use crate::text::spec_decimal_digits;
use crate::text::spec_join;
use crate::text::spec_path_lt;
use crate::text::u64_to_string;

verus! {

/// Inserts `p` into the sorted-distinct sequence `s`, keeping order and
/// dropping `p` when it is already present.
pub open spec fn spec_insert_path(p: Seq<Seq<char>>, s: Seq<Seq<Seq<char>>>) -> Seq<Seq<Seq<char>>>
    decreases s.len(),
{
    if s.len() == 0 {
        seq![p]
    } else if p == s[0] {
        s
    } else if spec_path_lt(p, s[0]) {
        seq![p] + s
    } else {
        seq![s[0]] + spec_insert_path(p, s.drop_first())
    }
}

/// The distinct project paths of `ps` in ascending `spec_path_lt` order.
pub open spec fn spec_sorted_distinct_paths(ps: Seq<Seq<Seq<char>>>) -> Seq<Seq<Seq<char>>>
    decreases ps.len(),
{
    if ps.len() == 0 {
        Seq::empty()
    } else {
        spec_insert_path(ps.last(), spec_sorted_distinct_paths(ps.drop_last()))
    }
}

/// Strictly ascending order: later entries are strictly greater, so the
/// sequence is also free of duplicates.
pub open spec fn spec_paths_sorted(s: Seq<Seq<Seq<char>>>) -> bool {
    forall|i: int, j: int| 0 <= i < j < s.len() ==> spec_path_lt(s[i], s[j])
}

proof fn lemma_path_lt_irreflexive(a: Seq<Seq<char>>)
    ensures
        !spec_path_lt(a, a),
    decreases a.len(),
{
    if a.len() > 0 {
        crate::text::lemma_str_lt_irreflexive(a[0]);
        lemma_path_lt_irreflexive(a.drop_first());
    }
}

proof fn lemma_insert_path_sorted(p: Seq<Seq<char>>, s: Seq<Seq<Seq<char>>>)
    requires
        spec_paths_sorted(s),
    ensures
        spec_paths_sorted(spec_insert_path(p, s)),
        forall|x: Seq<Seq<char>>|
            #[trigger] spec_insert_path(p, s).contains(x) <==> (x == p || s.contains(x)),
    decreases s.len(),
{
    let r = spec_insert_path(p, s);
    if s.len() == 0 {
        assert forall|x: Seq<Seq<char>>| #[trigger] r.contains(x) implies (x == p || s.contains(
            x,
        )) by {
            assert(r[choose|i: int| 0 <= i < r.len() && r[i] == x] == p);
        }
        assert(r.contains(p)) by {
            assert(r[0] == p);
        }
    } else if p == s[0] {
        assert(s.contains(p)) by {
            assert(s[0] == p);
        }
    } else if spec_path_lt(p, s[0]) {
        assert forall|i: int, j: int| 0 <= i < j < r.len() implies spec_path_lt(r[i], r[j]) by {
            if i == 0 {
                assert(r[j] == s[j - 1]);
                if j == 1 {
                    assert(r[j] == s[0]);
                } else {
                    assert(spec_path_lt(s[0], s[j - 1]));
                    lemma_path_lt_transitive(p, s[0], s[j - 1]);
                }
            } else {
                assert(r[i] == s[i - 1]);
                assert(r[j] == s[j - 1]);
            }
        }
        assert forall|x: Seq<Seq<char>>| #[trigger] r.contains(x) implies (x == p || s.contains(
            x,
        )) by {
            let i = choose|i: int| 0 <= i < r.len() && r[i] == x;
            if i > 0 {
                assert(s[i - 1] == x);
            }
        }
        assert forall|x: Seq<Seq<char>>| (x == p || s.contains(x)) implies #[trigger] r.contains(
            x,
        ) by {
            if x == p {
                assert(r[0] == x);
            } else {
                let i = choose|i: int| 0 <= i < s.len() && s[i] == x;
                assert(r[i + 1] == x);
            }
        }
    } else {
        assert(spec_paths_sorted(s.drop_first())) by {
            assert(forall|i: int, j: int|
                0 <= i < j < s.drop_first().len() ==> spec_path_lt(
                    #[trigger] s.drop_first()[i],
                    #[trigger] s.drop_first()[j],
                ));
        }
        lemma_insert_path_sorted(p, s.drop_first());
        let tail = spec_insert_path(p, s.drop_first());
        assert(r == seq![s[0]] + tail);
        if !spec_path_lt(s[0], p) {
            lemma_path_lt_connected(p, s[0]);
        }
        assert(spec_path_lt(s[0], p));
        assert forall|i: int, j: int| 0 <= i < j < r.len() implies spec_path_lt(r[i], r[j]) by {
            if i == 0 {
                assert(r[j] == tail[j - 1]);
                assert(tail.contains(tail[j - 1])) by {
                    assert(0 <= j - 1 < tail.len());
                }
                if tail[j - 1] == p {
                    assert(spec_path_lt(r[0], r[j]));
                } else {
                    assert(s.drop_first().contains(tail[j - 1]));
                    let k = choose|k: int|
                        0 <= k < s.drop_first().len() && s.drop_first()[k] == tail[j - 1];
                    assert(s[k + 1] == tail[j - 1]);
                    assert(spec_path_lt(s[0], s[k + 1]));
                }
            } else {
                assert(r[i] == tail[i - 1]);
                assert(r[j] == tail[j - 1]);
            }
        }
        assert forall|x: Seq<Seq<char>>| #[trigger] r.contains(x) implies (x == p || s.contains(
            x,
        )) by {
            let i = choose|i: int| 0 <= i < r.len() && r[i] == x;
            if i == 0 {
                assert(s[0] == x);
            } else {
                assert(tail[i - 1] == x);
                assert(tail.contains(x)) by {
                    assert(0 <= i - 1 < tail.len());
                }
                if x != p {
                    assert(s.drop_first().contains(x));
                    let k = choose|k: int|
                        0 <= k < s.drop_first().len() && s.drop_first()[k] == x;
                    assert(s[k + 1] == x);
                }
            }
        }
        assert forall|x: Seq<Seq<char>>| (x == p || s.contains(x)) implies #[trigger] r.contains(
            x,
        ) by {
            if x == p {
                assert(tail.contains(p));
                let k = choose|k: int| 0 <= k < tail.len() && tail[k] == p;
                assert(r[k + 1] == p);
            } else {
                let i = choose|i: int| 0 <= i < s.len() && s[i] == x;
                if i == 0 {
                    assert(r[0] == x);
                } else {
                    assert(s.drop_first()[i - 1] == x);
                    assert(s.drop_first().contains(x)) by {
                        assert(0 <= i - 1 < s.drop_first().len());
                    }
                    assert(tail.contains(x));
                    let k = choose|k: int| 0 <= k < tail.len() && tail[k] == x;
                    assert(r[k + 1] == x);
                }
            }
        }
    }
}

/// The folder list the merge writes is strictly sorted (hence free of
/// duplicates), and holds exactly the distinct project paths.
pub proof fn lemma_sorted_distinct_paths_correct(ps: Seq<Seq<Seq<char>>>)
    ensures
        spec_paths_sorted(spec_sorted_distinct_paths(ps)),
        forall|x: Seq<Seq<char>>|
            #[trigger] spec_sorted_distinct_paths(ps).contains(x) <==> ps.contains(x),
    decreases ps.len(),
{
    let r = spec_sorted_distinct_paths(ps);
    if ps.len() == 0 {
        assert(forall|x: Seq<Seq<char>>| !r.contains(x) && !ps.contains(x));
    } else {
        lemma_sorted_distinct_paths_correct(ps.drop_last());
        lemma_insert_path_sorted(ps.last(), spec_sorted_distinct_paths(ps.drop_last()));
        assert forall|x: Seq<Seq<char>>| #[trigger] r.contains(x) implies ps.contains(x) by {
            if x == ps.last() {
                assert(ps[ps.len() - 1] == x);
            } else {
                assert(ps.drop_last().contains(x));
                let i = choose|i: int| 0 <= i < ps.drop_last().len() && ps.drop_last()[i] == x;
                assert(ps[i] == x);
            }
        }
        assert forall|x: Seq<Seq<char>>| ps.contains(x) implies #[trigger] r.contains(x) by {
            let i = choose|i: int| 0 <= i < ps.len() && ps[i] == x;
            if i == ps.len() - 1 {
                assert(x == ps.last());
            } else {
                assert(ps.drop_last()[i] == x);
                assert(ps.drop_last().contains(x)) by {
                    assert(0 <= i < ps.drop_last().len());
                }
            }
        }
    }
}

proof fn lemma_insert_path_skip(p: Seq<Seq<char>>, s: Seq<Seq<Seq<char>>>, j: int)
    requires
        0 <= j <= s.len(),
        forall|k: int| 0 <= k < j ==> spec_path_lt(#[trigger] s[k], p),
    ensures
        spec_insert_path(p, s) == s.take(j) + spec_insert_path(p, s.skip(j)),
    decreases j,
{
    if j == 0 {
        assert(s.take(0) =~= Seq::<Seq<Seq<char>>>::empty());
        assert(s.skip(0) =~= s);
        assert(s.take(0) + spec_insert_path(p, s.skip(0)) =~= spec_insert_path(p, s));
    } else {
        assert(spec_path_lt(s[0], p));
        lemma_path_lt_irreflexive(s[0]);
        assert(p != s[0]);
        if spec_path_lt(p, s[0]) {
            lemma_path_lt_transitive(p, s[0], p);
            lemma_path_lt_irreflexive(p);
            assert(false);
        }
        assert(spec_insert_path(p, s) == seq![s[0]] + spec_insert_path(p, s.drop_first()));
        let sd = s.drop_first();
        assert(forall|k: int| 0 <= k < j - 1 ==> spec_path_lt(#[trigger] sd[k], p));
        lemma_insert_path_skip(p, sd, j - 1);
        assert(sd.take(j - 1) =~= s.take(j).drop_first());
        assert(sd.skip(j - 1) =~= s.skip(j));
        assert(seq![s[0]] + (sd.take(j - 1) + spec_insert_path(p, sd.skip(j - 1))) =~= s.take(j)
            + spec_insert_path(p, s.skip(j)));
    }
}

/// Inserts `p` into the sorted-distinct `list`, keeping order and dropping
/// duplicates.
fn insert_path(list: &mut Vec<Vec<String>>, p: Vec<String>)
    ensures
        final(list).deep_view() == spec_insert_path(p.deep_view(), old(list).deep_view()),
{
    let ghost s = old(list).deep_view();
    let ghost pv = p.deep_view();
    let mut j: usize = 0;
    loop
        invariant
            j <= list.len(),
            *list == *old(list),
            s == list.deep_view(),
            s.len() == list.len(),
            pv == p.deep_view(),
            forall|k: int| 0 <= k < j ==> spec_path_lt(#[trigger] s[k], pv),
        ensures
            j <= list.len(),
            *list == *old(list),
            forall|k: int| 0 <= k < j ==> spec_path_lt(#[trigger] s[k], pv),
            j == list.len() || !spec_path_lt(s[j as int], pv),
        decreases list.len() - j,
    {
        if j == list.len() {
            break ;
        }
        proof {
            assert(s[j as int] == list[j as int].deep_view());
        }
        if !path_lt(&list[j], &p) {
            break ;
        }
        j = j + 1;
    }
    proof {
        lemma_insert_path_skip(pv, s, j as int);
    }
    if j < list.len() {
        proof {
            assert(s[j as int] == list[j as int].deep_view());
            assert(s.skip(j as int)[0] == s[j as int]);
        }
        if path_eq(&list[j], &p) {
            proof {
                assert(spec_insert_path(pv, s.skip(j as int)) == s.skip(j as int));
                assert(s.take(j as int) + s.skip(j as int) =~= s);
            }
            return ;
        }
        proof {
            if !spec_path_lt(pv, s[j as int]) {
                lemma_path_lt_connected(pv, s[j as int]);
                assert(false);
            }
            assert(spec_insert_path(pv, s.skip(j as int)) == seq![pv] + s.skip(j as int));
        }
        list.insert(j, p);
        proof {
            assert(list.deep_view() =~= s.take(j as int) + (seq![pv] + s.skip(j as int)));
        }
    } else {
        list.push(p);
        proof {
            assert(s.skip(j as int) =~= Seq::<Seq<Seq<char>>>::empty());
            assert(spec_insert_path(pv, s.skip(j as int)) == seq![pv]);
            assert(list.deep_view() =~= s.take(j as int) + seq![pv]);
        }
    }
}

/// The distinct project paths of `ps`, sorted ascending.
pub fn sorted_distinct_paths(ps: &Vec<Vec<String>>) -> (r: Vec<Vec<String>>)
    ensures
        r.deep_view() == spec_sorted_distinct_paths(ps.deep_view()),
{
    let ghost psv = ps.deep_view();
    let mut r: Vec<Vec<String>> = Vec::new();
    let mut i: usize = 0;
    proof {
        assert(psv.take(0) =~= Seq::<Seq<Seq<char>>>::empty());
        assert(r.deep_view() =~= spec_sorted_distinct_paths(psv.take(0)));
    }
    while i < ps.len()
        invariant
            i <= ps.len(),
            psv == ps.deep_view(),
            psv.len() == ps.len(),
            r.deep_view() == spec_sorted_distinct_paths(psv.take(i as int)),
        decreases ps.len() - i,
    {
        proof {
            assert(psv[i as int] == ps[i as int].deep_view());
        }
        insert_path(&mut r, clone_string_vec(&ps[i]));
        proof {
            assert(psv.take(i + 1).drop_last() =~= psv.take(i as int));
            assert(psv.take(i + 1).last() == psv[i as int]);
        }
        i = i + 1;
    }
    proof {
        assert(psv.take(ps.len() as int) =~= psv);
    }
    r
}

/// The workspace display name, derived from the target root's own directory
/// name and the project count: the root's name alone for at most one
/// project, the root's name with the count for several; absent when the root
/// has no meaningful name.
pub open spec fn spec_workspace_name(
    root_name: Option<Seq<char>>,
    projects: Seq<Seq<Seq<char>>>,
) -> Option<Seq<char>> {
    match root_name {
        Some(rn) => if projects.len() > 1 {
            Some(rn + " ("@ + spec_decimal_digits(projects.len() as int) + " Rust Projects)"@)
        } else {
            Some(rn + " (Rust)"@)
        },
        None => None,
    }
}

/// Derives the workspace display name from the scanned root's own name and
/// the sorted distinct project paths.
pub fn generate_workspace_name(root_name: &Option<String>, project_paths: &Vec<Vec<String>>) -> (r:
    Option<String>)
    ensures
        r.deep_view() == spec_workspace_name(root_name.deep_view(), project_paths.deep_view()),
{
    match root_name {
        Some(rn) => {
            if project_paths.len() > 1 {
                let count = u64_to_string(project_paths.len() as u64);
                Some(rn.clone().concat(" (").concat(count.as_str()).concat(" Rust Projects)"))
            } else {
                Some(rn.clone().concat(" (Rust)"))
            }
        },
        None => None,
    }
}

/// The workspace document's file name: the scanned root's own name with the
/// fixed extension, with a fallback name when the root has no name.
pub open spec fn spec_workspace_filename(root_name: Option<Seq<char>>) -> Seq<char> {
    match root_name {
        Some(rn) => rn + ".code-workspace"@,
        None => "rust-projects.code-workspace"@,
    }
}

/// Derives the workspace document's file name from the scanned root's name.
pub fn generate_workspace_filename(root_name: &Option<String>) -> (r: String)
    ensures
        r@ == spec_workspace_filename(root_name.deep_view()),
{
    match root_name {
        Some(rn) => rn.clone().concat(".code-workspace"),
        None => String::from_str("rust-projects.code-workspace"),
    }
}

/// The candidate backup name for the workspace file: the file's name with a
/// backup suffix, numbered after the first attempt so that no earlier backup
/// is ever overwritten.
pub open spec fn spec_backup_file_name(filename: Seq<char>, counter: u64) -> Seq<char> {
    if counter == 0 {
        filename + ".backup"@
    } else {
        filename + ".backup."@ + spec_decimal_digits(counter as int)
    }
}

/// Builds the backup name candidate number `counter` for the workspace file.
pub fn backup_file_name(filename: &str, counter: u64) -> (r: String)
    ensures
        r@ == spec_backup_file_name(filename@, counter),
{
    if counter == 0 {
        String::from_str(filename).concat(".backup")
    } else {
        String::from_str(filename).concat(".backup.").concat(u64_to_string(counter).as_str())
    }
}

/// One folder entry: the project's path relative to the root, or the current
/// directory for the root itself.
pub open spec fn spec_folder_entry(p: Seq<Seq<char>>) -> Seq<char> {
    if p.len() == 0 {
        "."@
    } else {
        "./"@ + spec_join(p, "/"@)
    }
}

/// The document's folder list: one entry per distinct project path in sorted
/// order, with a single current-directory entry when there are none.
pub open spec fn spec_folder_entries(projects: Seq<Seq<Seq<char>>>) -> Seq<Seq<char>> {
    let sorted = spec_sorted_distinct_paths(projects);
    if sorted.len() == 0 {
        seq!["."@]
    } else {
        Seq::new(sorted.len(), |i: int| spec_folder_entry(sorted[i]))
    }
}

fn folder_entry(p: &Vec<String>) -> (r: String)
    ensures
        r@ == spec_folder_entry(p.deep_view()),
{
    if p.len() == 0 {
        proof {
            assert(p.deep_view().len() == 0);
        }
        String::from_str(".")
    } else {
        proof {
            assert(p.deep_view().len() > 0);
        }
        String::from_str("./").concat(join_strings(p, "/").as_str())
    }
}

/// The workspace document. The `settings`, `tasks` and `extensions` sections
/// are free-form content owned by the user; they travel through the library
/// as their compactly serialized text and are never interpreted, only
/// preserved or dropped when empty.
#[derive(Debug, Clone, PartialEq, Eq)]
pub struct WorkspaceFile {
    /// The folder entries, one path per project.
    pub folders: Vec<String>,
    /// The workspace display name.
    pub name: Option<String>,
    /// The free-form settings section, compactly serialized.
    pub settings: Option<String>,
    /// The launch section.
    pub launch: Option<WorkspaceLaunchConfig>,
    /// The free-form tasks section, compactly serialized.
    pub tasks: Option<String>,
    /// The free-form extensions section, compactly serialized.
    pub extensions: Option<String>,
}

/// The mathematical model of a [`WorkspaceFile`].
pub ghost struct WorkspaceFileV {
    pub folders: Seq<Seq<char>>,
    pub name: Option<Seq<char>>,
    pub settings: Option<Seq<char>>,
    pub launch: Option<WorkspaceLaunchConfigV>,
    pub tasks: Option<Seq<char>>,
    pub extensions: Option<Seq<char>>,
}

impl View for WorkspaceFile {
    type V = WorkspaceFileV;

    open spec fn view(&self) -> WorkspaceFileV {
        WorkspaceFileV {
            folders: self.folders.deep_view(),
            name: self.name.deep_view(),
            settings: self.settings.deep_view(),
            launch: self.launch.deep_view(),
            tasks: self.tasks.deep_view(),
            extensions: self.extensions.deep_view(),
        }
    }
}

/// The document a run starts from when no file exists or the existing file
/// cannot be parsed: no folders and no optional sections.
pub open spec fn spec_empty_workspace_file() -> WorkspaceFileV {
    WorkspaceFileV {
        folders: Seq::empty(),
        name: None,
        settings: None,
        launch: None,
        tasks: None,
        extensions: None,
    }
}

/// Builds the empty workspace document.
pub fn empty_workspace_file() -> (f: WorkspaceFile)
    ensures
        f@ == spec_empty_workspace_file(),
{
    let f = WorkspaceFile {
        folders: Vec::new(),
        name: None,
        settings: None,
        launch: None,
        tasks: None,
        extensions: None,
    };
    proof {
        assert(f.folders.deep_view() =~= Seq::<Seq<char>>::empty());
    }
    f
}

/// Drops a free-form section that is present but holds only a null or
/// empty-object placeholder.
pub open spec fn spec_normalized_section(s: Option<Seq<char>>) -> Option<Seq<char>> {
    match s {
        Some(v) => if v == "null"@ || v == "{}"@ {
            None
        } else {
            Some(v)
        },
        None => None,
    }
}

/// The project paths of a sequence of runnables, in order, repeats included.
pub open spec fn spec_runnable_project_paths(rs: Seq<RunnableV>) -> Seq<Seq<Seq<char>>> {
    Seq::new(rs.len(), |i: int| rs[i].project_path)
}

/// The document after one run: folders, name and launch recomputed from the
/// runnables, null or empty placeholders dropped, everything else kept.
pub open spec fn spec_updated_file(
    doc: WorkspaceFileV,
    projects: Seq<Seq<Seq<char>>>,
    root_name: Option<Seq<char>>,
    launch: WorkspaceLaunchConfigV,
) -> WorkspaceFileV {
    WorkspaceFileV {
        folders: spec_folder_entries(projects),
        name: spec_workspace_name(root_name, spec_sorted_distinct_paths(projects)),
        settings: spec_normalized_section(doc.settings),
        launch: Some(launch),
        tasks: spec_normalized_section(doc.tasks),
        extensions: spec_normalized_section(doc.extensions),
    }
}

fn is_null_text(s: &String) -> (r: bool)
    ensures
        r == (s@ == "null"@),
{
    let null_text = String::from_str("null");
    *s == null_text
}

fn is_empty_object_text(s: &String) -> (r: bool)
    ensures
        r == (s@ == "{}"@),
{
    let empty_object = String::from_str("{}");
    *s == empty_object
}

/// Updates the loaded document in place: recomputes the folder list, display
/// name and launch section from the runnables, and drops null or empty
/// placeholder sections, preserving all other content.
pub fn update_workspace_file(
    file: &mut WorkspaceFile,
    runnables: &Vec<Runnable>,
    root_name: &Option<String>,
    launch: WorkspaceLaunchConfig,
)
    ensures
        final(file)@ == spec_updated_file(
            old(file)@,
            spec_runnable_project_paths(runnables.deep_view()),
            root_name.deep_view(),
            launch@,
        ),
{
    let ghost paths = spec_runnable_project_paths(runnables.deep_view());
    let mut project_paths: Vec<Vec<String>> = Vec::new();
    let mut i: usize = 0;
    while i < runnables.len()
        invariant
            i <= runnables.len(),
            runnables.deep_view().len() == runnables.len(),
            paths == spec_runnable_project_paths(runnables.deep_view()),
            paths.len() == runnables.len(),
            project_paths.deep_view().len() == i,
            forall|j: int| 0 <= j < i ==> project_paths.deep_view()[j] == paths[j],
        decreases runnables.len() - i,
    {
        let ghost prev = project_paths@;
        let ghost prev_dv = project_paths.deep_view();
        project_paths.push(clone_string_vec(&runnables[i].project_path));
        proof {
            assert(runnables.deep_view()[i as int] == runnables[i as int].deep_view());
            assert forall|j: int| 0 <= j < i + 1 implies project_paths.deep_view()[j] == paths[j] by {
                if j < i {
                    assert(project_paths.deep_view()[j] == project_paths@[j].deep_view());
                    assert(project_paths@[j] == prev[j]);
                    assert(prev_dv[j] == prev[j].deep_view());
                } else {
                    assert(project_paths.deep_view()[j]
                        == runnables[i as int].project_path.deep_view());
                }
            }
        }
        i = i + 1;
    }
    proof {
        assert(project_paths.deep_view() =~= paths);
    }
    let sorted = sorted_distinct_paths(&project_paths);
    file.name = generate_workspace_name(root_name, &sorted);
    let ghost sorted_v = spec_sorted_distinct_paths(paths);
    let mut folders: Vec<String> = Vec::new();
    let mut j: usize = 0;
    while j < sorted.len()
        invariant
            j <= sorted.len(),
            sorted.deep_view() == sorted_v,
            sorted_v.len() == sorted.len(),
            folders.deep_view().len() == j,
            forall|k: int| 0 <= k < j ==> folders.deep_view()[k] == spec_folder_entry(sorted_v[k]),
        decreases sorted.len() - j,
    {
        let ghost prev = folders@;
        let ghost prev_dv = folders.deep_view();
        let entry = folder_entry(&sorted[j]);
        folders.push(entry);
        proof {
            assert(sorted.deep_view()[j as int] == sorted[j as int].deep_view());
            assert forall|k: int| 0 <= k < j + 1 implies folders.deep_view()[k]
                == spec_folder_entry(sorted_v[k]) by {
                if k < j {
                    assert(folders.deep_view()[k] == folders@[k].deep_view());
                    assert(folders@[k] == prev[k]);
                    assert(prev_dv[k] == prev[k].deep_view());
                } else {
                    assert(folders.deep_view()[k] == entry@);
                }
            }
        }
        j = j + 1;
    }
    if folders.len() == 0 {
        folders.push(String::from_str("."));
        proof {
            assert(folders.deep_view() =~= seq!["."@]);
            assert(folders.deep_view() =~= spec_folder_entries(paths));
        }
    } else {
        proof {
            assert(folders.deep_view() =~= spec_folder_entries(paths));
        }
    }
    file.folders = folders;
    let drop_settings = match &file.settings {
        Some(s) => is_null_text(s) || is_empty_object_text(s),
        None => false,
    };
    if drop_settings {
        file.settings = None;
    }
    let drop_tasks = match &file.tasks {
        Some(s) => is_null_text(s) || is_empty_object_text(s),
        None => false,
    };
    if drop_tasks {
        file.tasks = None;
    }
    let drop_extensions = match &file.extensions {
        Some(s) => is_null_text(s) || is_empty_object_text(s),
        None => false,
    };
    if drop_extensions {
        file.extensions = None;
    }
    file.launch = Some(launch);
}

/// Running the update twice with the same runnables and root produces the
/// same document as running it once: the recomputed sections depend only on
/// the runnables, and dropping placeholders is idempotent.
pub proof fn lemma_update_idempotent(
    doc: WorkspaceFileV,
    projects: Seq<Seq<Seq<char>>>,
    root_name: Option<Seq<char>>,
    launch: WorkspaceLaunchConfigV,
)
    ensures
        spec_updated_file(
            spec_updated_file(doc, projects, root_name, launch),
            projects,
            root_name,
            launch,
        ) == spec_updated_file(doc, projects, root_name, launch),
{
}

/// The update replaces the launch section with exactly the generated one and
/// keeps every hand-authored free-form section untouched: only a pure
/// null or empty-object placeholder is dropped.
pub proof fn lemma_update_preserves_sections(
    doc: WorkspaceFileV,
    projects: Seq<Seq<Seq<char>>>,
    root_name: Option<Seq<char>>,
    launch: WorkspaceLaunchConfigV,
)
    ensures
        spec_updated_file(doc, projects, root_name, launch).launch == Some(launch),
        doc.settings != Some("null"@) && doc.settings != Some("{}"@) ==> spec_updated_file(
            doc,
            projects,
            root_name,
            launch,
        ).settings == doc.settings,
        doc.tasks != Some("null"@) && doc.tasks != Some("{}"@) ==> spec_updated_file(
            doc,
            projects,
            root_name,
            launch,
        ).tasks == doc.tasks,
        doc.extensions != Some("null"@) && doc.extensions != Some("{}"@) ==> spec_updated_file(
            doc,
            projects,
            root_name,
            launch,
        ).extensions == doc.extensions,
{
}

/// A run that starts from the empty document (no file, or an unparseable
/// one) yields a document with recomputed folders and launch sections and no
/// free-form sections.
pub proof fn lemma_update_of_empty_document(
    projects: Seq<Seq<Seq<char>>>,
    root_name: Option<Seq<char>>,
    launch: WorkspaceLaunchConfigV,
)
    ensures
        spec_updated_file(spec_empty_workspace_file(), projects, root_name, launch)
            == (WorkspaceFileV {
            folders: spec_folder_entries(projects),
            name: spec_workspace_name(root_name, spec_sorted_distinct_paths(projects)),
            settings: None,
            launch: Some(launch),
            tasks: None,
            extensions: None,
        }),
{
}

} // verus!
