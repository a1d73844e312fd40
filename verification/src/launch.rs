//! Building debug-launch entries from runnables.
//!
//! Each runnable becomes one launch entry following fixed conventions: a
//! namespaced display name, the native-debugger type tag, a working
//! directory (and matching asset-root environment variable) relative to the
//! workspace root, and build-invocation arguments for the build tool.

use vstd::prelude::*;
use vstd::string::StringExecFns;

use crate::runnables::Runnable;
use crate::runnables::RunnableType;
use crate::runnables::RunnableV;
use crate::text::join_strings;
use crate::text::spec_join;

verus! {

/// One debug-launch entry of the workspace document's launch section.
#[derive(Debug, Clone, PartialEq, Eq)]
pub struct Configuration {
    /// The entry's display name.
    pub name: String,
    /// The debugger type tag.
    pub config_type: String,
    /// The request mode; always `launch`.
    pub request: String,
    /// The working directory, relative to the workspace root.
    pub cwd: String,
    /// The asset-root environment variable's value; equals `cwd`.
    pub env_asset_root: String,
    /// The build-invocation arguments.
    pub cargo_args: Vec<String>,
    /// Extra runtime arguments; left empty for the user to fill in.
    pub args: Vec<String>,
}

/// The mathematical model of a [`Configuration`].
pub ghost struct ConfigurationV {
    pub name: Seq<char>,
    pub config_type: Seq<char>,
    pub request: Seq<char>,
    pub cwd: Seq<char>,
    pub env_asset_root: Seq<char>,
    pub cargo_args: Seq<Seq<char>>,
    pub args: Seq<Seq<char>>,
}

impl View for Configuration {
    type V = ConfigurationV;

    open spec fn view(&self) -> ConfigurationV {
        ConfigurationV {
            name: self.name@,
            config_type: self.config_type@,
            request: self.request@,
            cwd: self.cwd@,
            env_asset_root: self.env_asset_root@,
            cargo_args: self.cargo_args.deep_view(),
            args: self.args.deep_view(),
        }
    }
}

impl DeepView for Configuration {
    type V = ConfigurationV;

    open spec fn deep_view(&self) -> ConfigurationV {
        self.view()
    }
}

/// The launch section of the workspace document.
#[derive(Debug, Clone, PartialEq, Eq)]
pub struct WorkspaceLaunchConfig {
    /// The launch-section format version.
    pub version: String,
    /// One entry per runnable, in runnable order.
    pub configurations: Vec<Configuration>,
}

/// The mathematical model of a [`WorkspaceLaunchConfig`].
pub ghost struct WorkspaceLaunchConfigV {
    pub version: Seq<char>,
    pub configurations: Seq<ConfigurationV>,
}

impl View for WorkspaceLaunchConfig {
    type V = WorkspaceLaunchConfigV;

    open spec fn view(&self) -> WorkspaceLaunchConfigV {
        WorkspaceLaunchConfigV {
            version: self.version@,
            configurations: self.configurations.deep_view(),
        }
    }
}

impl DeepView for WorkspaceLaunchConfig {
    type V = WorkspaceLaunchConfigV;

    open spec fn deep_view(&self) -> WorkspaceLaunchConfigV {
        self.view()
    }
}

/// The working directory of a project root expressed from the workspace
/// root: the placeholder alone for the root itself, else the placeholder
/// followed by the relative path.
pub open spec fn spec_cwd(project_path: Seq<Seq<char>>) -> Seq<char> {
    if project_path.len() == 0 {
        "${workspaceFolder}"@
    } else {
        "${workspaceFolder}/"@ + spec_join(project_path, "/"@)
    }
}

/// The feature-selection argument for a non-empty feature list.
pub open spec fn spec_features_arg(feats: Seq<Seq<char>>) -> Seq<char> {
    "--features="@ + spec_join(feats, ","@)
}

/// The build-invocation arguments for a binary target: invoked by package
/// alone when the bare name is `main` or repeats the package name, else by
/// explicit binary name; required features are appended when present.
pub open spec fn spec_binary_cargo_args(
    package: Seq<char>,
    target: Seq<char>,
    feats: Seq<Seq<char>>,
) -> Seq<Seq<char>> {
    let base = if target == "main"@ || target == package {
        seq!["run"@, "--package="@ + package]
    } else {
        seq!["run"@, "--bin="@ + target, "--package="@ + package]
    };
    if feats.len() > 0 {
        base.push(spec_features_arg(feats))
    } else {
        base
    }
}

/// The build-invocation arguments for an example target: always invoked by
/// explicit example name; required features are appended when present.
pub open spec fn spec_example_cargo_args(
    package: Seq<char>,
    target: Seq<char>,
    feats: Seq<Seq<char>>,
) -> Seq<Seq<char>> {
    let base = seq!["run"@, "--example="@ + target, "--package="@ + package];
    if feats.len() > 0 {
        base.push(spec_features_arg(feats))
    } else {
        base
    }
}

/// The display name of a runnable's launch entry.
pub open spec fn spec_entry_name(r: RunnableV) -> Seq<char> {
    match r.runnable_type {
        RunnableType::Binary => "Debug binary '"@ + r.name + "'"@,
        RunnableType::Example => "Debug example '"@ + r.name + "'"@,
    }
}

/// The launch entry generated for one runnable.
pub open spec fn spec_launch_entry(r: RunnableV) -> ConfigurationV {
    ConfigurationV {
        name: spec_entry_name(r),
        config_type: "lldb"@,
        request: "launch"@,
        cwd: spec_cwd(r.project_path),
        env_asset_root: spec_cwd(r.project_path),
        cargo_args: match r.runnable_type {
            RunnableType::Binary => spec_binary_cargo_args(
                r.package,
                r.target,
                r.required_features,
            ),
            RunnableType::Example => spec_example_cargo_args(
                r.package,
                r.target,
                r.required_features,
            ),
        },
        args: Seq::empty(),
    }
}

/// The launch entries generated for a sequence of runnables, in order.
pub open spec fn spec_launch_entries(rs: Seq<RunnableV>) -> Seq<ConfigurationV> {
    Seq::new(rs.len(), |i: int| spec_launch_entry(rs[i]))
}

/// The generated launch section: the fixed format version and one entry per
/// runnable.
pub open spec fn spec_workspace_launch_config(rs: Seq<RunnableV>) -> WorkspaceLaunchConfigV {
    WorkspaceLaunchConfigV { version: "0.2.0"@, configurations: spec_launch_entries(rs) }
}

/// `prefix` is an initial segment of `a`.
pub open spec fn spec_text_starts_with(a: Seq<char>, prefix: Seq<char>) -> bool {
    prefix.len() <= a.len() && a.take(prefix.len() as int) == prefix
}

/// The fixed lead-in of a launch entry's name for each runnable kind.
pub open spec fn spec_entry_name_lead(rt: RunnableType) -> Seq<char> {
    match rt {
        RunnableType::Binary => "Debug binary '"@,
        RunnableType::Example => "Debug example '"@,
    }
}

/// Every generated launch-entry name starts with the fixed lead-in followed
/// by the owning package's name and the namespace separator, so entries of
/// different packages never collide on name.
pub proof fn lemma_launch_entry_names_package_prefixed(rs: Seq<RunnableV>)
    requires
        forall|i: int|
            0 <= i < rs.len() ==> crate::runnables::spec_runnable_namespaced(#[trigger] rs[i]),
    ensures
        forall|i: int|
            0 <= i < rs.len() ==> spec_text_starts_with(
                #[trigger] spec_launch_entries(rs)[i].name,
                spec_entry_name_lead(rs[i].runnable_type) + rs[i].package + "::"@,
            ),
{
    assert forall|i: int| 0 <= i < rs.len() implies spec_text_starts_with(
        #[trigger] spec_launch_entries(rs)[i].name,
        spec_entry_name_lead(rs[i].runnable_type) + rs[i].package + "::"@,
    ) by {
        let r = rs[i];
        let lead = spec_entry_name_lead(r.runnable_type);
        let prefix = lead + r.package + "::"@;
        let name = spec_entry_name(r);
        assert(spec_launch_entries(rs)[i].name == name);
        match r.runnable_type {
            RunnableType::Binary => {
                assert(name =~= prefix + r.target + "'"@);
            },
            RunnableType::Example => {
                assert(name =~= prefix + r.target + " (example)"@ + "'"@);
            },
        }
        assert(name.take(prefix.len() as int) =~= prefix);
    }
}

fn make_cwd(project_path: &Vec<String>) -> (r: String)
    ensures
        r@ == spec_cwd(project_path.deep_view()),
{
    if project_path.len() == 0 {
        proof {
            assert(project_path.deep_view().len() == 0);
        }
        String::from_str("${workspaceFolder}")
    } else {
        proof {
            assert(project_path.deep_view().len() > 0);
        }
        String::from_str("${workspaceFolder}/").concat(join_strings(project_path, "/").as_str())
    }
}

fn make_features_arg(feats: &Vec<String>) -> (r: String)
    ensures
        r@ == spec_features_arg(feats.deep_view()),
{
    String::from_str("--features=").concat(join_strings(feats, ",").as_str())
}

fn binary_cargo_args(r: &Runnable) -> (args: Vec<String>)
    ensures
        args.deep_view() == spec_binary_cargo_args(
            r.package@,
            r.target@,
            r.required_features.deep_view(),
        ),
{
    let mut args: Vec<String> = Vec::new();
    args.push(String::from_str("run"));
    let main_name = String::from_str("main");
    if r.target == main_name || r.target == r.package {
        args.push(String::from_str("--package=").concat(r.package.as_str()));
        proof {
            assert(args.deep_view() =~= seq!["run"@, "--package="@ + r.package@]);
        }
    } else {
        args.push(String::from_str("--bin=").concat(r.target.as_str()));
        args.push(String::from_str("--package=").concat(r.package.as_str()));
        proof {
            assert(args.deep_view() =~= seq![
                "run"@,
                "--bin="@ + r.target@,
                "--package="@ + r.package@,
            ]);
        }
    }
    let ghost base = args.deep_view();
    if r.required_features.len() > 0 {
        proof {
            assert(r.required_features.deep_view().len() > 0);
        }
        args.push(make_features_arg(&r.required_features));
        proof {
            assert(args.deep_view() =~= base.push(
                spec_features_arg(r.required_features.deep_view()),
            ));
        }
    } else {
        proof {
            assert(r.required_features.deep_view().len() == 0);
        }
    }
    args
}

fn example_cargo_args(r: &Runnable) -> (args: Vec<String>)
    ensures
        args.deep_view() == spec_example_cargo_args(
            r.package@,
            r.target@,
            r.required_features.deep_view(),
        ),
{
    let mut args: Vec<String> = Vec::new();
    args.push(String::from_str("run"));
    args.push(String::from_str("--example=").concat(r.target.as_str()));
    args.push(String::from_str("--package=").concat(r.package.as_str()));
    proof {
        assert(args.deep_view() =~= seq![
            "run"@,
            "--example="@ + r.target@,
            "--package="@ + r.package@,
        ]);
    }
    let ghost base = args.deep_view();
    if r.required_features.len() > 0 {
        proof {
            assert(r.required_features.deep_view().len() > 0);
        }
        args.push(make_features_arg(&r.required_features));
        proof {
            assert(args.deep_view() =~= base.push(
                spec_features_arg(r.required_features.deep_view()),
            ));
        }
    } else {
        proof {
            assert(r.required_features.deep_view().len() == 0);
        }
    }
    args
}

/// Builds the launch entry of one runnable.
fn launch_entry(r: &Runnable) -> (c: Configuration)
    ensures
        c@ == spec_launch_entry(r@),
{
    let cwd = make_cwd(&r.project_path);
    let env_asset_root = cwd.clone();
    let (name, cargo_args) = match r.runnable_type {
        RunnableType::Binary => (
            String::from_str("Debug binary '").concat(r.name.as_str()).concat("'"),
            binary_cargo_args(r),
        ),
        RunnableType::Example => (
            String::from_str("Debug example '").concat(r.name.as_str()).concat("'"),
            example_cargo_args(r),
        ),
    };
    let c = Configuration {
        name,
        config_type: String::from_str("lldb"),
        request: String::from_str("launch"),
        cwd,
        env_asset_root,
        cargo_args,
        args: Vec::new(),
    };
    proof {
        assert(c.args.deep_view() =~= Seq::<Seq<char>>::empty());
    }
    c
}

/// Builds the launch entries of all runnables, in order.
pub fn generate_launch_config(runnables: &Vec<Runnable>) -> (cs: Vec<Configuration>)
    ensures
        cs.deep_view() == spec_launch_entries(runnables.deep_view()),
{
    let mut cs: Vec<Configuration> = Vec::new();
    let mut i: usize = 0;
    while i < runnables.len()
        invariant
            i <= runnables.len(),
            runnables.deep_view().len() == runnables.len(),
            cs.deep_view().len() == i,
            forall|j: int|
                0 <= j < i ==> cs.deep_view()[j] == spec_launch_entry(
                    runnables.deep_view()[j],
                ),
        decreases runnables.len() - i,
    {
        let c = launch_entry(&runnables[i]);
        let ghost prev_dv = cs.deep_view();
        let ghost prev = cs@;
        cs.push(c);
        proof {
            assert(cs@ == prev.push(c));
            assert(runnables.deep_view()[i as int] == runnables[i as int].deep_view());
            assert forall|j: int|
                0 <= j < i + 1 implies cs.deep_view()[j] == spec_launch_entry(
                runnables.deep_view()[j],
            ) by {
                if j < i {
                    assert(cs.deep_view()[j] == cs@[j].deep_view());
                    assert(cs@[j] == prev[j]);
                    assert(prev_dv[j] == prev[j].deep_view());
                    assert(prev_dv[j] == spec_launch_entry(runnables.deep_view()[j]));
                } else {
                    assert(cs.deep_view()[j] == c.deep_view());
                }
            }
        }
        i = i + 1;
    }
    proof {
        assert(cs.deep_view() =~= spec_launch_entries(runnables.deep_view()));
    }
    cs
}

/// Builds the workspace document's launch section for the given runnables.
pub fn generate_workspace_launch_config(runnables: &Vec<Runnable>) -> (c: WorkspaceLaunchConfig)
    ensures
        c@ == spec_workspace_launch_config(runnables.deep_view()),
{
    WorkspaceLaunchConfig {
        version: String::from_str("0.2.0"),
        configurations: generate_launch_config(runnables),
    }
}

} // verus!
