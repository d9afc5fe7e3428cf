//! A firmware project as one value: the `.ioc` configuration, the user
//! code regions of `main.c`, the generated call graph, the `PV`
//! declarations, state machines and the modules that use each pin.
use vstd::prelude::*;
use std::path::PathBuf;
use crate::builder::{build_call_graph, call_graph, edges_view, GraphEdge};
use crate::ioc::{IocParseError, IocProject, PeripheralConfig, PinConfig};
use crate::machine::AppStateMachine;
use crate::marker_scan::{
    find_loop_body_gap, loop_body_gap, regions_view, scan_error_view, scan_source, scan_spec, ScanError,
    UserRegion,
};
use crate::paths::{clone_path, debug_paths, display_path};
use crate::pin_modules::{file_name_of, path_file_name};
use crate::text::concat_str;
use crate::pv_extract::{PvDeclaration, PvExtractError};
use crate::text::byte_len;

verus! {

/// What names and locates a project.
#[derive(Debug)]
pub struct ProjectMeta {
    /// The `.ioc` file's name without its extension.
    pub name: String,
    pub mcu_family: String,
    pub mcu_name: String,
    pub ioc_path: PathBuf,
    pub main_c_path: PathBuf,
}

impl Clone for ProjectMeta {
    fn clone(&self) -> (r: Self)
        ensures
            r.name@ == self.name@,
            r.mcu_family@ == self.mcu_family@,
            r.mcu_name@ == self.mcu_name@,
            r.ioc_path == self.ioc_path,
            r.main_c_path == self.main_c_path,
    {
        ProjectMeta {
            name: self.name.clone(),
            mcu_family: self.mcu_family.clone(),
            mcu_name: self.mcu_name.clone(),
            ioc_path: clone_path(&self.ioc_path),
            main_c_path: clone_path(&self.main_c_path),
        }
    }
}

/// Everything known of a project.
#[derive(Debug, Clone)]
pub struct Project {
    pub meta: ProjectMeta,
    pub pins: Vec<PinConfig>,
    pub peripherals: Vec<PeripheralConfig>,
    pub user_regions: Vec<UserRegion>,
    /// The body of the main loop, when `main.c` has one.
    pub loop_body: Option<UserRegion>,
    pub call_graph_edges: Vec<GraphEdge>,
    pub pv_declarations: Vec<PvDeclaration>,
    pub state_machines: Vec<AppStateMachine>,
    pub modules: Vec<String>,
}

/// Why a project could not be loaded.
#[derive(Debug)]
pub enum ProjectLoadError {
    IocError(IocParseError),
    ScanError(ScanError),
    PvExtractError(PvExtractError),
}

/// Why the files of a project could not be found.
#[derive(Debug)]
pub enum DiscoveryError {
    /// No `.ioc` file in the directory.
    NoIocFound(PathBuf),
    /// More than one `.ioc` file in the directory.
    MultipleIocFound(PathBuf, Vec<PathBuf>),
    /// Neither candidate `main.c` is a file; the candidates checked.
    NoMainCFound(Vec<PathBuf>),
}

/// `m` is the message of `e`; the texts of paths are left open.
pub open spec fn discovery_message(e: DiscoveryError, m: Seq<char>) -> bool {
    match e {
        DiscoveryError::NoIocFound(_) => exists|t: Seq<char>| m == #[trigger] "no .ioc file found in "@.add(t),
        DiscoveryError::MultipleIocFound(_, _) => exists|t: Seq<char>, u: Seq<char>|
            m == #[trigger] "multiple .ioc files found in "@.add(t).add(", expected exactly one: "@.add(u)),
        DiscoveryError::NoMainCFound(_) => exists|t: Seq<char>| m == #[trigger] "no main.c found \u{2014} checked: "@.add(t),
    }
}

impl DiscoveryError {
    /// The message that describes the error.
    pub fn message(&self) -> (r: String)
        ensures
            discovery_message(*self, r@),
    {
        match self {
            DiscoveryError::NoIocFound(d) => {
                let t = display_path(d);
                let r = concat_str("no .ioc file found in ", t.as_str());
                assert(r@ == "no .ioc file found in "@.add(t@));
                r
            },
            DiscoveryError::MultipleIocFound(d, fs) => {
                let t = display_path(d);
                let u = debug_paths(fs);
                let tail = concat_str(", expected exactly one: ", u.as_str());
                let r = concat_str(concat_str("multiple .ioc files found in ", t.as_str()).as_str(), tail.as_str());
                assert(r@ == "multiple .ioc files found in "@.add(t@).add(", expected exactly one: "@.add(u@)));
                r
            },
            DiscoveryError::NoMainCFound(c) => {
                let t = debug_paths(c);
                let r = concat_str("no main.c found \u{2014} checked: ", t.as_str());
                assert(r@ == "no main.c found \u{2014} checked: "@.add(t@));
                r
            },
        }
    }
}

/// Picks the project's files: the one `.ioc` file of the directory, and the
/// first of the `main.c` candidates (`Core/Src/main.c`, then `Src/main.c`)
/// that is a file.
pub fn select_project_files(
    project_dir: &PathBuf,
    ioc_files: Vec<PathBuf>,
    core_main: PathBuf,
    core_main_is_file: bool,
    src_main: PathBuf,
    src_main_is_file: bool,
) -> (r: Result<(PathBuf, PathBuf), DiscoveryError>)
    ensures
        ioc_files@.len() == 0 ==> (r matches Err(DiscoveryError::NoIocFound(d)) && d == *project_dir),
        ioc_files@.len() > 1 ==> (r matches Err(DiscoveryError::MultipleIocFound(d, fs)) && d
            == *project_dir && fs@ == ioc_files@),
        ioc_files@.len() == 1 ==> (if core_main_is_file {
            r matches Ok((i, m)) && i == ioc_files@[0] && m == core_main
        } else if src_main_is_file {
            r matches Ok((i, m)) && i == ioc_files@[0] && m == src_main
        } else {
            r matches Err(DiscoveryError::NoMainCFound(c)) && c@ == seq![core_main, src_main]
        }),
{
    if ioc_files.len() == 0 {
        return Err(DiscoveryError::NoIocFound(clone_path(project_dir)));
    }
    if ioc_files.len() > 1 {
        return Err(DiscoveryError::MultipleIocFound(clone_path(project_dir), ioc_files));
    }
    let mut ioc_files = ioc_files;
    let ioc = ioc_files.remove(0);
    if core_main_is_file {
        Ok((ioc, core_main))
    } else if src_main_is_file {
        Ok((ioc, src_main))
    } else {
        let mut checked: Vec<PathBuf> = Vec::new();
        checked.push(core_main);
        checked.push(src_main);
        assert(checked@ =~= seq![core_main, src_main]);
        Err(DiscoveryError::NoMainCFound(checked))
    }
}

/// What the files of a project hold, read by the caller: the parsed `.ioc`
/// file, the text of `main.c`, its `PV` declarations, the state machines
/// found in its sources, and the pins with the modules that use them.
pub struct ProjectSources {
    pub ioc: Result<IocProject, IocParseError>,
    pub main_c: Result<String, ScanError>,
    pub pv_declarations: Result<Vec<PvDeclaration>, PvExtractError>,
    pub state_machines: Vec<AppStateMachine>,
    pub pins: Vec<PinConfig>,
    pub modules: Vec<String>,
}

/// The project that the sources make, or the first error among them: the
/// `.ioc` file's, then `main.c`'s (reading or scanning it), then that of
/// the `PV` declarations; a file without a `PV` region has no declarations,
/// and the project takes the name of the `.ioc` file's stem.
pub open spec fn load_outcome(
    ioc_path: PathBuf,
    ioc_text: Option<Seq<char>>,
    main_c_path: PathBuf,
    s: ProjectSources,
    r: Result<Project, ProjectLoadError>,
) -> bool {
    match s.ioc {
        Err(e) => r == Err::<Project, ProjectLoadError>(ProjectLoadError::IocError(e)),
        Ok(ioc) => match s.main_c {
            Err(e) => r == Err::<Project, ProjectLoadError>(ProjectLoadError::ScanError(e)),
            Ok(text) => match scan_spec(text@) {
                Err(se) => r matches Err(ProjectLoadError::ScanError(e)) && scan_error_view(e) == se,
                Ok(regs) => if s.pv_declarations matches Err(e) && !(e is NoPvRegion) {
                    r == Err::<Project, ProjectLoadError>(
                        ProjectLoadError::PvExtractError(s.pv_declarations->Err_0),
                    )
                } else {
                    r matches Ok(p) && {
                        &&& regions_view(p.user_regions@) == regs
                        &&& forall|i: int|
                            0 <= i < p.user_regions@.len() ==> (#[trigger] p.user_regions@[i]).file
                                == main_c_path
                        &&& p.meta.name@ == project_name_from(ioc_text)
                        &&& p.meta.mcu_family@ == ioc.mcu_family@
                        &&& p.meta.mcu_name@ == ioc.mcu_name@
                        &&& p.meta.ioc_path == ioc_path
                        &&& p.meta.main_c_path == main_c_path
                        &&& p.pins == s.pins
                        &&& p.peripherals == ioc.peripherals
                        &&& (match p.loop_body {
                            Some(g) => loop_body_gap(regs) == Some(g@),
                            None => loop_body_gap(regs) is None,
                        })
                        &&& edges_view(p.call_graph_edges@) == call_graph(ioc.raw@, ioc@.peripherals)
                        &&& (match s.pv_declarations {
                            Ok(d) => p.pv_declarations == d,
                            Err(_) => p.pv_declarations@.len() == 0,
                        })
                        &&& p.state_machines == s.state_machines
                        &&& p.modules == s.modules
                    }
                },
            },
        },
    }
}

/// The index of the last `.` of `n` before `i`.
pub open spec fn last_dot_before(n: Seq<char>, i: int) -> Option<int>
    decreases i,
{
    if i <= 0 {
        None
    } else if n[i - 1] == '.' {
        Some(i - 1)
    } else {
        last_dot_before(n, i - 1)
    }
}

/// A file name without its extension, as `Path::file_stem` gives it: the
/// text before the last `.`, unless that `.` begins the name.
pub open spec fn file_stem(n: Seq<char>) -> Seq<char> {
    match last_dot_before(n, n.len() as int) {
        Some(k) => if k > 0 {
            n.subrange(0, k)
        } else {
            n
        },
        None => n,
    }
}

/// The name of a project whose `.ioc` file is written as `ioc_path`: the
/// file's stem, or `project` when the path names no file.
pub open spec fn project_name_of(ioc_path: Seq<char>) -> Seq<char> {
    match path_file_name(ioc_path) {
        Some(n) => file_stem(n),
        None => "project"@,
    }
}

/// The name of the project of the `.ioc` file at `ioc_path`.
pub fn project_name(ioc_path: &str) -> (r: String)
    ensures
        r@ == project_name_of(ioc_path@),
{
    let n = match file_name_of(ioc_path) {
        Some(n) => n,
        None => {
            proof {
                reveal_strlit("project");
            }
            return crate::text::owned("project");
        },
    };
    assert(path_file_name(ioc_path@) == Some(n@));
    let c = crate::text::chars_of(n.as_str());
    let mut i: usize = c.len();
    while i > 0
        invariant
            0 <= i <= c@.len(),
            c@ == n@,
            path_file_name(ioc_path@) == Some(n@),
            last_dot_before(n@, n@.len() as int) == last_dot_before(n@, i as int),
        decreases i,
    {
        if c[i - 1] == '.' {
            if i - 1 > 0 {
                return crate::text::string_of(&c, 0, i - 1);
            }
            return n;
        }
        i -= 1;
    }
    n
}

/// The text of a path, where it has one.
pub open spec fn text_of(o: Option<&str>) -> Option<Seq<char>> {
    match o {
        Some(t) => Some(t@),
        None => None,
    }
}

/// The name of a project whose `.ioc` path reads `text`: the file's stem,
/// or `project` when the path is no text or names no file.
pub open spec fn project_name_from(text: Option<Seq<char>>) -> Seq<char> {
    match text {
        Some(t) => project_name_of(t),
        None => "project"@,
    }
}

/// Assembles a project from what its files hold. `ioc_path_text` is the
/// `.ioc` path as text, where it is valid Unicode; the project is named
/// after that file's stem.
pub fn load_project(
    ioc_path: &PathBuf,
    ioc_path_text: Option<&str>,
    main_c_path: &PathBuf,
    sources: ProjectSources,
) -> (r: Result<Project, ProjectLoadError>)
    requires
        sources.main_c matches Ok(t) ==> byte_len(t@) < usize::MAX,
    ensures
        load_outcome(*ioc_path, text_of(ioc_path_text), *main_c_path, sources, r),
{
    let name = match ioc_path_text {
        Some(t) => project_name(t),
        None => {
            proof {
                reveal_strlit("project");
            }
            crate::text::owned("project")
        },
    };
    let ghost s = sources;
    let ProjectSources { ioc, main_c, pv_declarations, state_machines, pins, modules } = sources;
    let ioc = match ioc {
        Ok(i) => i,
        Err(e) => return Err(ProjectLoadError::IocError(e)),
    };
    let text = match main_c {
        Ok(t) => t,
        Err(e) => return Err(ProjectLoadError::ScanError(e)),
    };
    let scanned = scan_source(main_c_path, text.as_str());
    let user_regions = match scanned {
        Ok(v) => v,
        Err(e) => return Err(ProjectLoadError::ScanError(e)),
    };
    let loop_body = find_loop_body_gap(user_regions.as_slice());
    let call_graph_edges = build_call_graph(&ioc);
    let pv = match pv_declarations {
        Ok(d) => d,
        Err(PvExtractError::NoPvRegion) => Vec::new(),
        Err(e) => return Err(ProjectLoadError::PvExtractError(e)),
    };
    let IocProject { mcu_family, mcu_name, pins: _, peripherals, raw: _ } = ioc;
    let meta = ProjectMeta {
        name,
        mcu_family,
        mcu_name,
        ioc_path: clone_path(ioc_path),
        main_c_path: clone_path(main_c_path),
    };
    Ok(
        Project {
            meta,
            pins,
            peripherals,
            user_regions,
            loop_body,
            call_graph_edges,
            pv_declarations: pv,
            state_machines,
            modules,
        },
    )
}

/// A project loads exactly when its `.ioc` file parses, `main.c` is read
/// and scanned, and its `PV` declarations are read or it has no `PV`
/// region; otherwise the first of these that fails is the error. A loaded
/// project is named after the `.ioc` file's stem, and a missing `PV` region
/// leaves it without declarations.
pub proof fn law_load_project_outcome(
    ioc_path: PathBuf,
    ioc_text: Option<Seq<char>>,
    main_c_path: PathBuf,
    s: ProjectSources,
    r: Result<Project, ProjectLoadError>,
)
    requires
        load_outcome(ioc_path, ioc_text, main_c_path, s, r),
    ensures
        r is Ok <==> (s.ioc is Ok && (s.main_c matches Ok(t) && scan_spec(t@) is Ok) && !(s.pv_declarations matches Err(
            e,
        ) && !(e is NoPvRegion))),
        s.ioc matches Err(e) ==> r == Err::<Project, ProjectLoadError>(ProjectLoadError::IocError(e)),
        s.ioc is Ok && s.main_c is Err ==> r matches Err(ProjectLoadError::ScanError(_)),
        s.ioc is Ok && (s.main_c matches Ok(t) && scan_spec(t@) is Err) ==> r matches Err(ProjectLoadError::ScanError(_)),
        (s.ioc is Ok && (s.main_c matches Ok(t) && scan_spec(t@) is Ok) && (s.pv_declarations matches Err(e) && !(
        e is NoPvRegion))) ==> r matches Err(ProjectLoadError::PvExtractError(_)),
        r matches Ok(p) ==> {
            &&& p.meta.name@ == project_name_from(ioc_text)
            &&& (s.pv_declarations is Err ==> p.pv_declarations@.len() == 0)
            &&& edges_view(p.call_graph_edges@) == call_graph(s.ioc->Ok_0.raw@, s.ioc->Ok_0@.peripherals)
            &&& p.state_machines == s.state_machines
        },
{
}

} // verus!
