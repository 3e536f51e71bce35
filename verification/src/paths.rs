use vstd::pervasive::unreached;
use vstd::prelude::*;

verus! {

/// The pages of the site that templates and redirects refer to by name.
#[derive(Clone, Copy, Debug, PartialEq, Eq, Structural)]
pub enum Path {
    AdminDashboard,
    AdminNewsletters,
    AdminPassword,
    AdminLogout,
    Login,
}

/// The URI under which a page is served.
pub open spec fn spec_path_uri(path: Path) -> Seq<char> {
    match path {
        Path::AdminDashboard => "/admin/dashboard"@,
        Path::AdminNewsletters => "/admin/newsletters"@,
        Path::AdminPassword => "/admin/password"@,
        Path::AdminLogout => "/admin/logout"@,
        Path::Login => "/login"@,
    }
}

/// The URI under which a page is served.
pub fn path_uri(path: Path) -> (uri: &'static str)
    ensures
        uri@ == spec_path_uri(path),
{
    match path {
        Path::AdminDashboard => "/admin/dashboard",
        Path::AdminNewsletters => "/admin/newsletters",
        Path::AdminPassword => "/admin/password",
        Path::AdminLogout => "/admin/logout",
        Path::Login => "/login",
    }
}

/// The page that a name stands for, if it is the name of a page.
pub open spec fn spec_parse_path(name: Seq<char>) -> Option<Path> {
    if name == "admin_dashboard"@ {
        Some(Path::AdminDashboard)
    } else if name == "admin_newsletter"@ {
        Some(Path::AdminNewsletters)
    } else if name == "admin_password"@ {
        Some(Path::AdminPassword)
    } else if name == "admin_logout"@ {
        Some(Path::AdminLogout)
    } else if name == "login"@ {
        Some(Path::Login)
    } else {
        None
    }
}

/// The answer to a name that is no page's name.
#[derive(Clone, Copy, Debug, PartialEq, Eq, Structural)]
pub struct BadPath;

impl BadPath {
    /// What the answer says.
    pub fn message(&self) -> (text: &'static str)
        ensures
            text@ == "bad path"@,
    {
        "bad path"
    }
}

fn same_text(a: &str, b: &str) -> (same: bool)
    ensures
        same == (a@ == b@),
{
    a.to_owned() == b.to_owned()
}

/// The page that a name stands for.
pub fn parse_path(value: &str) -> (r: Result<Path, BadPath>)
    ensures
        r == match spec_parse_path(value@) {
            Some(path) => Ok::<Path, BadPath>(path),
            None => Err::<Path, BadPath>(BadPath),
        },
{
    if same_text(value, "admin_dashboard") {
        Ok(Path::AdminDashboard)
    } else if same_text(value, "admin_newsletter") {
        Ok(Path::AdminNewsletters)
    } else if same_text(value, "admin_password") {
        Ok(Path::AdminPassword)
    } else if same_text(value, "admin_logout") {
        Ok(Path::AdminLogout)
    } else if same_text(value, "login") {
        Ok(Path::Login)
    } else {
        Err(BadPath)
    }
}

/// The URI of the page with the given name.
pub fn get_path(route: &str) -> (uri: &'static str)
    requires
        spec_parse_path(route@) is Some,
    ensures
        uri@ == spec_path_uri(spec_parse_path(route@).unwrap()),
{
    match parse_path(route) {
        Ok(path) => path_uri(path),
        Err(_) => unreached(),
    }
}

} // verus!
