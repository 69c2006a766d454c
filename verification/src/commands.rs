//! Rules that the user-facing commands apply to their arguments before they reach the
//! services: page sizes, the name and source of an uploaded file.
use vstd::prelude::*;
use vstd::string::*;

use crate::error::{AppError, AppResult};
use crate::registry::opt_view;
use crate::text::{trim, trim_seq};

verus! {

/// The logging settings shown to the user.
pub struct LogSettings {
    pub level: String,
    pub retention_days: i64,
}

/// How many log files a cleanup deleted.
pub struct LogCleanupResult {
    pub deleted_files: usize,
}

/// A health report on the database.
pub struct DbStatus {
    pub schema_version: String,
    pub table_count: i64,
    pub db_size_bytes: u64,
    pub integrity_check: String,
    /// The tables named by the foreign key check, one per violation.
    pub foreign_key_check: Vec<String>,
}

/// The number of group events listed: 50 by default, kept between 1 and 1000.
pub fn event_history_limit(limit: Option<i64>) -> (r: i64)
    ensures
        r == (match limit {
            Some(l) => if l < 1 {
                1
            } else if l > 1000 {
                1000
            } else {
                l
            },
            None => 50,
        }),
{
    let l: i64 = match limit {
        Some(l) => l,
        None => 50,
    };
    if l < 1 {
        1
    } else if l > 1000 {
        1000
    } else {
        l
    }
}

/// The number of messages or pokes listed: 50 unless the caller says otherwise.
pub fn history_limit(limit: Option<i64>) -> (r: i64)
    ensures
        r == (match limit {
            Some(l) => l,
            None => 50,
        }),
{
    match limit {
        Some(l) => l,
        None => 50,
    }
}

/// The number of system log entries listed: 100 by default, at most 1000.
pub fn log_page_limit(limit: Option<usize>) -> (r: usize)
    ensures
        r == (match limit {
            Some(l) => if l < 1000 {
                l
            } else {
                1000
            },
            None => 100,
        }),
{
    let l: usize = match limit {
        Some(l) => l,
        None => 100,
    };
    if l < 1000 {
        l
    } else {
        1000
    }
}

/// The name an uploaded file is stored under: the name the user gave unless it is blank, else
/// the name of the source file, else `upload`.
pub open spec fn upload_name(given: Option<Seq<char>>, source_file_name: Option<Seq<char>>) -> Seq<char> {
    match given {
        Some(n) if trim_seq(n).len() > 0 => n,
        _ => match source_file_name {
            Some(s) => s,
            None => "upload"@,
        },
    }
}

/// The stored name of an upload: a name the user gave that is not blank is kept as given;
/// when none is given, or it is blank (empty or only whitespace), the source file's name is
/// used when the source has one; `upload` only when there is neither.
pub proof fn law_upload_name_choice(given: Option<Seq<char>>, source_file_name: Option<Seq<char>>)
    ensures
        match given {
            Some(n) => trim_seq(n).len() > 0 ==> upload_name(given, source_file_name) == n,
            None => true,
        },
        (match given {
            Some(n) => trim_seq(n).len() == 0,
            None => true,
        }) ==> upload_name(given, source_file_name) == match source_file_name {
            Some(s) => s,
            None => "upload"@,
        },
{
}

/// The name an uploaded file is stored under.
pub fn upload_file_name(file_name: Option<String>, source_file_name: Option<String>) -> (r: String)
    ensures
        r@ == upload_name(opt_view(file_name), opt_view(source_file_name)),
{
    let keep = match &file_name {
        Some(n) => trim(n.as_str()).unicode_len() > 0,
        None => false,
    };
    if keep {
        match file_name {
            Some(n) => n,
            None => String::new(),
        }
    } else {
        match source_file_name {
            Some(s) => s,
            None => {
                proof {
                    reveal_strlit("upload");
                }
                String::from_str("upload")
            },
        }
    }
}

/// `std::path::Path::is_absolute` on the path `p`. What counts as absolute depends on the
/// platform (a leading `/` on Unix; a prefix and a root on Windows), so nothing is stated of
/// the result.
#[verifier::external_body]
fn path_is_absolute(p: &str) -> bool {
    std::path::Path::new(p).is_absolute()
}

/// The first checks on the source of an upload, given whether the platform deems the path
/// absolute: a blank path is refused, then a relative one.
pub open spec fn upload_source_problem(source_path: Seq<char>, is_absolute: bool) -> Option<Seq<char>> {
    if trim_seq(source_path).len() == 0 {
        Some("source path is empty"@)
    } else if !is_absolute {
        Some("source path must be an absolute path"@)
    } else {
        None
    }
}

/// Applies the first checks on the source of an upload to a path and the platform's answer on
/// whether it is absolute.
pub fn upload_source_verdict(source_path: &str, is_absolute: bool) -> (r: AppResult<()>)
    ensures
        r is Ok <==> upload_source_problem(source_path@, is_absolute) is None,
        r matches Err(e) ==> e is Validation && upload_source_problem(source_path@, is_absolute)
            == Some(e.message_view()),
{
    if trim(source_path).unicode_len() == 0 {
        proof {
            reveal_strlit("source path is empty");
        }
        return Err(AppError::validation(String::from_str("source path is empty")));
    }
    if !is_absolute {
        proof {
            reveal_strlit("source path must be an absolute path");
        }
        return Err(AppError::validation(String::from_str("source path must be an absolute path")));
    }
    Ok(())
}

/// The first checks on the source of an upload: a blank path is refused as empty; a path that
/// the platform does not deem absolute is refused as relative.
pub fn check_upload_source(source_path: &str) -> (r: AppResult<()>)
    ensures
        trim_seq(source_path@).len() == 0 ==> (r matches Err(e) && e is Validation
            && e.message_view() == "source path is empty"@),
        trim_seq(source_path@).len() > 0 ==> (r is Ok || (r matches Err(e) && e is Validation
            && e.message_view() == "source path must be an absolute path"@)),
{
    let is_absolute = path_is_absolute(source_path);
    upload_source_verdict(source_path, is_absolute)
}

} // verus!
