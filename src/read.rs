//! Locations of the files of a BIDS recording.
//!
//! A recording lives in `<root>/sub-<subject>/[ses-<session>/]<datatype>/`, and
//! its files are named
//! `sub-<subject>[_ses-<session>]_task-<task>[_acq-<acquisition>][_run-<run>]_<datatype>.<ext>`.

use vstd::prelude::*;
use crate::text::views;

verus! {

/// The directory of one recording in a BIDS dataset.
#[derive(Debug)]
pub struct BIDSPath {
    pub root: String,
    pub subject: String,
    pub session: Option<String>,
    pub datatype: String,
    /// The directory's path components, from the root down.
    pub path: Vec<String>,
}

/// The characters of an optional string.
pub open spec fn opt_view(o: Option<&str>) -> Option<Seq<char>> {
    match o {
        Some(s) => Some(s@),
        None => None,
    }
}

/// `prefix` followed by `v`, or nothing when there is no `v`.
pub open spec fn opt_part(prefix: Seq<char>, v: Option<Seq<char>>) -> Seq<char> {
    match v {
        Some(x) => prefix + x,
        None => Seq::empty(),
    }
}

/// Path components of a recording's directory.
pub open spec fn directory_of(
    root: Seq<char>,
    subject: Seq<char>,
    session: Option<Seq<char>>,
    datatype: Seq<char>,
) -> Seq<Seq<char>> {
    let top = seq![root, "sub-"@ + subject];
    let with_session = match session {
        Some(s) => top.push("ses-"@ + s),
        None => top,
    };
    with_session.push(datatype)
}

/// Name of a file of a recording.
pub open spec fn file_name_of(
    subject: Seq<char>,
    session: Option<Seq<char>>,
    task: Seq<char>,
    acquisition: Option<Seq<char>>,
    run: Option<Seq<char>>,
    datatype: Seq<char>,
    extension: Seq<char>,
) -> Seq<char> {
    "sub-"@ + subject + opt_part("_ses-"@, session) + "_task-"@ + task + opt_part(
        "_acq-"@,
        acquisition,
    ) + opt_part("_run-"@, run) + "_"@ + datatype + "."@ + extension
}

impl BIDSPath {
    pub open spec fn session_view(&self) -> Option<Seq<char>> {
        match self.session {
            Some(s) => Some(s@),
            None => None,
        }
    }

    /// The directory of `subject`'s recording of `datatype` (in `session`, if
    /// the dataset has sessions) under `root`.
    pub fn new(root: &str, subject: &str, session: Option<&str>, datatype: &str) -> (r: BIDSPath)
        ensures
            r.root@ == root@,
            r.subject@ == subject@,
            r.session_view() == opt_view(session),
            r.datatype@ == datatype@,
            views(r.path@) == directory_of(root@, subject@, opt_view(session), datatype@),
    {
        let mut path: Vec<String> = Vec::new();
        path.push(String::from_str(root));
        let mut sub = String::from_str("sub-");
        sub.append(subject);
        path.push(sub);
        let session_name = match session {
            Some(s) => {
                let mut ses = String::from_str("ses-");
                ses.append(s);
                path.push(ses);
                Some(String::from_str(s))
            },
            None => None,
        };
        path.push(String::from_str(datatype));
        assert(views(path@) =~= directory_of(root@, subject@, opt_view(session), datatype@));
        BIDSPath {
            root: String::from_str(root),
            subject: String::from_str(subject),
            session: session_name,
            datatype: String::from_str(datatype),
            path,
        }
    }

    /// Name of the recording's file for `task` (and `acquisition` and `run`,
    /// where the dataset distinguishes them) with extension `extension`.
    pub fn file_name(
        &self,
        task: &str,
        acquisition: Option<&str>,
        run: Option<&str>,
        extension: &str,
    ) -> (r: String)
        ensures
            r@ == file_name_of(
                self.subject@,
                self.session_view(),
                task@,
                opt_view(acquisition),
                opt_view(run),
                self.datatype@,
                extension@,
            ),
    {
        let mut s = String::from_str("sub-");
        s.append(self.subject.as_str());
        match &self.session {
            Some(ses) => {
                s.append("_ses-");
                s.append(ses.as_str());
            },
            None => {},
        }
        s.append("_task-");
        s.append(task);
        match acquisition {
            Some(a) => {
                s.append("_acq-");
                s.append(a);
            },
            None => {},
        }
        match run {
            Some(x) => {
                s.append("_run-");
                s.append(x);
            },
            None => {},
        }
        s.append("_");
        s.append(self.datatype.as_str());
        s.append(".");
        s.append(extension);
        assert(s@ =~= file_name_of(
            self.subject@,
            self.session_view(),
            task@,
            opt_view(acquisition),
            opt_view(run),
            self.datatype@,
            extension@,
        ));
        s
    }
}

} // verus!
