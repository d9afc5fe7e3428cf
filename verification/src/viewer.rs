//! The state of the project viewer, and how loading a project directory
//! changes it.
use vstd::prelude::*;
use std::path::PathBuf;
use crate::ioc::{ioc_message, IocParseError, IocProject};
use crate::marker_scan::{find_loop_body_gap, loop_body_gap, regions_view, scan_message, while_index, ScanError, UserRegion};
use crate::project::{discovery_message, DiscoveryError};
use crate::pv_extract::{pv_message, PvDeclaration, PvExtractError};
use crate::text::concat_str;

verus! {

/// What the viewer shows: the project directory and its files, the parsed
/// `.ioc` project, the user code regions and `PV` declarations of `main.c`,
/// and the last error.
pub struct StakHalEguiApp {
    pub project_path: Option<PathBuf>,
    pub ioc_path: Option<PathBuf>,
    pub main_c_path: Option<PathBuf>,
    pub loaded_project: Option<IocProject>,
    pub user_regions: Vec<UserRegion>,
    pub pv_declarations: Vec<PvDeclaration>,
    pub error_message: Option<String>,
}

/// What the files of a directory gave when it was loaded, read by the
/// caller.
pub enum DirectoryContents {
    /// The project's `.ioc` file and `main.c` were found, and each was
    /// parsed: the `.ioc` file, the regions of `main.c`, its `PV`
    /// declarations.
    Found {
        ioc_path: PathBuf,
        main_c_path: PathBuf,
        ioc: Result<IocProject, IocParseError>,
        regions: Result<Vec<UserRegion>, ScanError>,
        pv_declarations: Result<Vec<PvDeclaration>, PvExtractError>,
    },
    /// The project's files could not be found.
    NotFound(DiscoveryError),
}

/// `out` is the scanned regions `rs`, followed by the implicit region of
/// the main loop's body when there is one.
pub open spec fn regions_with_gap(rs: Seq<UserRegion>, out: Seq<UserRegion>) -> bool {
    match loop_body_gap(regions_view(rs)) {
        Some(g) => {
            &&& out.len() == rs.len() + 1
            &&& out.subrange(0, rs.len() as int) == rs
            &&& out.last()@ == g
            &&& out.last().file == rs[while_index(regions_view(rs), 0)->0].file
        },
        None => out == rs,
    }
}

/// `m` is the error that a load reports: the first of the `.ioc` file's,
/// the region scan's and the `PV` extraction's errors, each message behind
/// the name of the step that failed; none when all three succeeded.
pub open spec fn load_error(
    ioc: Result<IocProject, IocParseError>,
    regions: Result<Vec<UserRegion>, ScanError>,
    pvs: Result<Vec<PvDeclaration>, PvExtractError>,
    m: Option<Seq<char>>,
) -> bool {
    match ioc {
        Err(e) => m matches Some(t) && exists|x: Seq<char>| #[trigger] ioc_message(e, x) && t == "IOC parse error: "@ + x,
        Ok(_) => match regions {
            Err(e) => m matches Some(t) && exists|x: Seq<char>|
                #[trigger] scan_message(e, x) && t == "User region scan error: "@ + x,
            Ok(_) => match pvs {
                Err(e) => m matches Some(t) && exists|x: Seq<char>|
                    #[trigger] pv_message(e, x) && t == "PV extract error: "@ + x,
                Ok(_) => m is None,
            },
        },
    }
}

/// The view of an optional message.
pub open spec fn message_view(m: Option<String>) -> Option<Seq<char>> {
    match m {
        Some(s) => Some(s@),
        None => None,
    }
}

impl Default for StakHalEguiApp {
    /// A viewer with nothing loaded.
    fn default() -> (r: Self)
        ensures
            r.project_path is None,
            r.ioc_path is None,
            r.main_c_path is None,
            r.loaded_project is None,
            r.user_regions@.len() == 0,
            r.pv_declarations@.len() == 0,
            r.error_message is None,
    {
        StakHalEguiApp {
            project_path: None,
            ioc_path: None,
            main_c_path: None,
            loaded_project: None,
            user_regions: Vec::new(),
            pv_declarations: Vec::new(),
            error_message: None,
        }
    }
}

impl StakHalEguiApp {
    /// Shows the project of the directory `dir`, from what its files gave.
    /// When its files were found, the viewer shows them, the project (none
    /// when the `.ioc` file failed), the regions with the implicit loop
    /// body region (none when the scan failed) and the `PV` declarations
    /// (none when their extraction failed), and the first error. When they
    /// were not, it shows the discovery error and no project, regions or
    /// declarations, and keeps the file paths it showed before.
    pub fn load_project_from_dir(&mut self, dir: PathBuf, contents: DirectoryContents)
        ensures
            final(self).project_path == Some(dir),
            match contents {
                DirectoryContents::Found { ioc_path, main_c_path, ioc, regions, pv_declarations } => {
                    &&& final(self).ioc_path == Some(ioc_path)
                    &&& final(self).main_c_path == Some(main_c_path)
                    &&& final(self).loaded_project == (match ioc {
                        Ok(p) => Some(p),
                        Err(_) => None::<IocProject>,
                    })
                    &&& (match regions {
                        Ok(rs) => regions_with_gap(rs@, final(self).user_regions@),
                        Err(_) => final(self).user_regions@.len() == 0,
                    })
                    &&& (match pv_declarations {
                        Ok(d) => final(self).pv_declarations == d,
                        Err(_) => final(self).pv_declarations@.len() == 0,
                    })
                    &&& load_error(ioc, regions, pv_declarations, message_view(final(self).error_message))
                },
                DirectoryContents::NotFound(e) => {
                    &&& final(self).ioc_path == old(self).ioc_path
                    &&& final(self).main_c_path == old(self).main_c_path
                    &&& final(self).loaded_project is None
                    &&& final(self).user_regions@.len() == 0
                    &&& final(self).pv_declarations@.len() == 0
                    &&& final(self).error_message matches Some(t) && exists|x: Seq<char>|
                        #[trigger] discovery_message(e, x) && t@ == "Discovery error: "@ + x
                },
            },
    {
        self.project_path = Some(dir);
        self.error_message = None;
        match contents {
            DirectoryContents::Found { ioc_path, main_c_path, ioc, regions, pv_declarations } => {
                self.ioc_path = Some(ioc_path);
                self.main_c_path = Some(main_c_path);
                let ghost ioc_g = ioc;
                let ghost regions_g = regions;
                let ghost pvs_g = pv_declarations;
                match ioc {
                    Ok(p) => {
                        self.loaded_project = Some(p);
                    },
                    Err(e) => {
                        let x = e.message();
                        self.error_message = Some(concat_str("IOC parse error: ", x.as_str()));
                        self.loaded_project = None;
                    },
                }
                match regions {
                    Ok(rs) => {
                        let mut rs = rs;
                        let ghost scanned = rs@;
                        match find_loop_body_gap(rs.as_slice()) {
                            Some(g) => {
                                rs.push(g);
                                assert(rs@.subrange(0, scanned.len() as int) =~= scanned);
                            },
                            None => {},
                        }
                        self.user_regions = rs;
                    },
                    Err(e) => {
                        self.user_regions = Vec::new();
                        if self.error_message.is_none() {
                            let x = e.message();
                            self.error_message = Some(concat_str("User region scan error: ", x.as_str()));
                        }
                    },
                }
                match pv_declarations {
                    Ok(d) => {
                        self.pv_declarations = d;
                    },
                    Err(e) => {
                        self.pv_declarations = Vec::new();
                        if self.error_message.is_none() {
                            let x = e.message();
                            self.error_message = Some(concat_str("PV extract error: ", x.as_str()));
                        }
                    },
                }
                proof {
                    assert(load_error(ioc_g, regions_g, pvs_g, message_view(self.error_message)));
                }
            },
            DirectoryContents::NotFound(e) => {
                let x = e.message();
                self.error_message = Some(concat_str("Discovery error: ", x.as_str()));
                self.loaded_project = None;
                self.user_regions = Vec::new();
                self.pv_declarations = Vec::new();
            },
        }
    }
}

} // verus!
