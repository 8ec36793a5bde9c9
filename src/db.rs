//! Where a vault's database lives inside its configuration directory.
use vstd::prelude::*;
use vstd::string::*;

verus! {

/// `dir` joined with the database's file name, as a path join does it.
pub open spec fn joined_db_path(dir: Seq<char>) -> Seq<char> {
    if dir.len() == 0 {
        "data.db"@
    } else if dir.last() == '/' {
        dir + "data.db"@
    } else {
        dir + "/"@ + "data.db"@
    }
}

/// The path of the database inside the configuration directory.
pub fn db_path(config_dir: &str) -> (r: String)
    ensures
        r@ == joined_db_path(config_dir@),
{
    let n = config_dir.unicode_len();
    let mut out = String::new();
    if n == 0 {
        out.append("data.db");
        return out;
    }
    out.append(config_dir);
    if config_dir.get_char(n - 1) != '/' {
        out.append("/");
    }
    out.append("data.db");
    out
}

/// The connection URL of the database inside the configuration directory.
pub fn db_url(config_dir: &str) -> (r: String)
    ensures
        r@ == "sqlite://"@ + joined_db_path(config_dir@),
{
    let path = db_path(config_dir);
    let mut out = String::new();
    out.append("sqlite://");
    out.append(path.as_str());
    out
}

} // verus!
