//! Which page, file or action a request path selects, and the paths and
//! messages that the handlers use.

use vstd::prelude::*;
use vstd::utf8::encode_utf8;
use chrono::Datelike;
use rand::RngExt;
use rand::SeedableRng;
use crate::text::{join, join_strings, owned, push_str, str_eq, views};
use crate::number::{decimal, parse_unsigned, parse_usize, push_decimal};
use crate::text::{split_once, split_once_str};

verus! {

// ------------------------------------------------------------------
// The home page and its files
// ------------------------------------------------------------------

/// The file that the home part of the site serves for the first path
/// segment `first`; `None` for the background picture, which is chosen at
/// random.
pub open spec fn home_file_of(first: Seq<char>) -> Option<Seq<char>> {
    if first == ""@ {
        Some("assets/main.html"@)
    } else if first == "favicon.ico"@ {
        Some("assets/icon.ico"@)
    } else if first == "any_pfp.png"@ {
        Some("assets/pfps/1.png"@)
    } else if first == "any_bg.png"@ {
        None
    } else {
        Some("assets/404.png"@)
    }
}

/// The file that the home part of the site serves for `first`.
pub fn home_file(first: &str) -> (r: Option<&'static str>)
    ensures
        match r {
            Some(f) => home_file_of(first@) == Some(f@),
            None => home_file_of(first@) is None,
        },
{
    if str_eq(first, "") {
        Some("assets/main.html")
    } else if str_eq(first, "favicon.ico") {
        Some("assets/icon.ico")
    } else if str_eq(first, "any_pfp.png") {
        Some("assets/pfps/1.png")
    } else if str_eq(first, "any_bg.png") {
        None
    } else {
        Some("assets/404.png")
    }
}

/// `Utc::now().day()`: the day of the month, in UTC, now.  Claimed: it is
/// between 1 and 31, as `Datelike::day` documents; which day it is depends
/// on the clock.  (`Utc::now` panics on a clock set before 1970.)
#[verifier::external_body]
fn today() -> (d: u32)
    ensures
        1 <= d <= 31,
{
    chrono::Utc::now().day()
}

/// Names the index that `StdRng::seed_from_u64(seed).random_range(0..len)`
/// draws: a function of the seed and the length alone.
pub uninterp spec fn seeded_index_of(seed: u64, len: usize) -> usize;

/// `StdRng::seed_from_u64(seed).random_range(0..len)`.  Claimed: the result
/// is `seeded_index_of(seed, len)`, and lies in `0..len` as `random_range`
/// documents; the range must not be empty.
#[verifier::external_body]
fn seeded_index(seed: u64, len: usize) -> (i: usize)
    requires
        len > 0,
    ensures
        i == seeded_index_of(seed, len),
        i < len,
{
    let mut rng = rand::rngs::StdRng::seed_from_u64(seed);
    rng.random_range(0..len)
}

/// The background picture for day `day` of the month out of `bgs`.
pub fn background_for_day(day: u32, bgs: &Vec<String>) -> (r: String)
    requires
        bgs@.len() > 0,
    ensures
        seeded_index_of(day as u64, bgs@.len() as usize) < bgs@.len(),
        r@ == bgs@[seeded_index_of(day as u64, bgs@.len() as usize) as int]@,
        views(bgs@).contains(r@),
{
    let i = seeded_index(day as u64, bgs.len());
    let r = owned(bgs[i].as_str());
    assert(views(bgs@)[i as int] == r@);
    r
}

/// The background picture for today, out of `bgs`: the same one all day.
pub fn random_bg(bgs: &Vec<String>) -> (r: String)
    requires
        bgs@.len() > 0,
    ensures
        views(bgs@).contains(r@),
        exists|d: u32|
            1 <= d <= 31 && seeded_index_of(d as u64, bgs@.len() as usize) < bgs@.len() && r@
                == bgs@[#[trigger] seeded_index_of(d as u64, bgs@.len() as usize) as int]@,
{
    let d = today();
    background_for_day(d, bgs)
}

/// The path of a background picture named as the listing of `assets/bgs`
/// names it.
pub fn background_path(name: &str) -> (r: String)
    ensures
        r@ == "assets/bgs"@ + name@,
{
    let mut r = owned("assets/bgs");
    push_str(&mut r, name);
    r
}

// ------------------------------------------------------------------
// Paths taken from the request path
// ------------------------------------------------------------------

/// The segments of `page` from `from` on, joined by `/`, with `suffix`
/// after them; `None` when `page` has fewer than `min_len` segments.
pub open spec fn tail_path_of(page: Seq<Seq<char>>, from: int, min_len: int, suffix: Seq<char>) -> Option<Seq<char>> {
    if page.len() < min_len {
        None
    } else {
        Some(join(page.subrange(from, page.len() as int), "/"@) + suffix)
    }
}

/// The file that a request path names below a directory: the segments of
/// `page` from `from` on, joined by `/`, with `suffix`.
pub fn tail_path(page: &Vec<String>, from: usize, min_len: usize, suffix: &str) -> (r: Option<String>)
    requires
        from <= min_len,
    ensures
        match r {
            Some(p) => tail_path_of(views(page@), from as int, min_len as int, suffix@) == Some(p@),
            None => tail_path_of(views(page@), from as int, min_len as int, suffix@) is None,
        },
{
    if page.len() < min_len {
        return None;
    }
    let mut p = join_strings(page.as_slice(), from, "/");
    push_str(&mut p, suffix);
    Some(p)
}

/// Whether the directory listing `listing` holds `name`.
pub fn contains_name(listing: &Vec<String>, name: &str) -> (r: bool)
    ensures
        r == views(listing@).contains(name@),
{
    let mut i: usize = 0;
    while i < listing.len()
        invariant
            0 <= i <= listing@.len(),
            forall|j: int| 0 <= j < i ==> listing@[j]@ != name@,
        decreases listing@.len() - i,
    {
        if str_eq(listing[i].as_str(), name) {
            assert(views(listing@)[i as int] == name@);
            return true;
        }
        i += 1;
    }
    assert forall|j: int| 0 <= j < views(listing@).len() implies views(listing@)[j] != name@ by {
        assert(listing@[j]@ != name@);
    }
    false
}

/// The segment of `page` at `index`, if the path has that many.
pub fn segment(page: &Vec<String>, index: usize) -> (r: Option<String>)
    ensures
        match r {
            Some(s) => index < page@.len() && s@ == page@[index as int]@,
            None => index >= page@.len(),
        },
{
    if index < page.len() {
        Some(owned(page[index].as_str()))
    } else {
        None
    }
}

/// The path `dir` + `name` + `suffix`.
pub fn file_path(dir: &str, name: &str, suffix: &str) -> (r: String)
    ensures
        r@ == dir@ + name@ + suffix@,
{
    let mut r = owned(dir);
    push_str(&mut r, name);
    push_str(&mut r, suffix);
    r
}

/// The file that the `count`-th upload is stored in.
pub fn upload_path(count: usize) -> (r: String)
    ensures
        r@ == "assets/uploaded/"@ + decimal(count as nat) + ".png"@,
{
    let mut r = owned("assets/uploaded/");
    push_decimal(&mut r, count as u64);
    push_str(&mut r, ".png");
    r
}

/// The reply to a deleted draft.
pub fn removed_message(name: &str) -> (r: String)
    ensures
        r@ == "removed "@ + name@,
{
    let mut r = owned("removed ");
    push_str(&mut r, name);
    r
}

/// The index of published posts with `name` put in front of the old index
/// `old`, one name per line.
pub fn prepend_post(name: &str, old: Vec<u8>) -> (r: Vec<u8>)
    ensures
        r@ == encode_utf8(name@ + "\n"@) + old@,
{
    let mut old = old;
    let mut line = owned(name);
    push_str(&mut line, "\n");
    let mut r = vstd::slice::slice_to_vec(line.as_str().as_bytes());
    r.append(&mut old);
    r
}

// ------------------------------------------------------------------
// Actions
// ------------------------------------------------------------------

/// What the login part of the site does for a request method.
#[derive(Debug, Clone, Copy, PartialEq, Eq, Structural)]
pub enum AuthAction {
    /// Serve the login page.
    LoginPage,
    /// Check the password in the body.
    Login,
    /// Answer nothing.
    Nothing,
}

/// The login action for `method`.
pub open spec fn auth_action_of(method: Seq<char>) -> AuthAction {
    if method == "GET"@ {
        AuthAction::LoginPage
    } else if method == "POST"@ {
        AuthAction::Login
    } else {
        AuthAction::Nothing
    }
}

/// The login action for `method`.
pub fn auth_action(method: &str) -> (r: AuthAction)
    ensures
        r == auth_action_of(method@),
{
    if str_eq(method, "GET") {
        AuthAction::LoginPage
    } else if str_eq(method, "POST") {
        AuthAction::Login
    } else {
        AuthAction::Nothing
    }
}

/// What the private part of the site does for an authorized request.
#[derive(Debug, Clone, Copy, PartialEq, Eq, Structural)]
pub enum MystuffAction {
    /// Serve the dashboard page.
    Dashboard,
    /// List a range of drafts as JSON.
    DraftList,
    /// Open a draft in the editor.
    LoadDraft,
    /// Serve the editor page.
    Editor,
    /// Serve the upload page.
    UploadPage,
    /// Delete a draft.
    DeleteDraft,
    /// Refuse a request without a target.
    BadRequest,
    /// Store an uploaded picture.
    UploadFile,
    /// Publish a post.
    Publish,
    /// Store a draft.
    SaveDraft,
    /// Answer nothing.
    Nothing,
}

/// The private action for `method` and the path segments `page`.
pub open spec fn mystuff_action_of(method: Seq<char>, page: Seq<Seq<char>>) -> MystuffAction {
    if method == "GET"@ {
        if page.len() < 2 {
            MystuffAction::Dashboard
        } else if page[1] == "drafts"@ {
            MystuffAction::DraftList
        } else if page[1] == "draft"@ {
            MystuffAction::LoadDraft
        } else if page[1] == "editor"@ {
            MystuffAction::Editor
        } else if page[1] == "upload"@ {
            MystuffAction::UploadPage
        } else if page[1] == "delete"@ {
            MystuffAction::DeleteDraft
        } else {
            MystuffAction::Nothing
        }
    } else if method == "POST"@ {
        if page.len() < 2 {
            MystuffAction::BadRequest
        } else if page[1] == "upload"@ {
            MystuffAction::UploadFile
        } else if page[1] == "post"@ {
            MystuffAction::Publish
        } else if page[1] == "draft"@ {
            MystuffAction::SaveDraft
        } else {
            MystuffAction::Nothing
        }
    } else {
        MystuffAction::Nothing
    }
}

/// The private action for `method` and the path segments `page`.
pub fn mystuff_action(method: &str, page: &Vec<String>) -> (r: MystuffAction)
    ensures
        r == mystuff_action_of(method@, views(page@)),
{
    if str_eq(method, "GET") {
        if page.len() < 2 {
            MystuffAction::Dashboard
        } else {
            let p = page[1].as_str();
            if str_eq(p, "drafts") {
                MystuffAction::DraftList
            } else if str_eq(p, "draft") {
                MystuffAction::LoadDraft
            } else if str_eq(p, "editor") {
                MystuffAction::Editor
            } else if str_eq(p, "upload") {
                MystuffAction::UploadPage
            } else if str_eq(p, "delete") {
                MystuffAction::DeleteDraft
            } else {
                MystuffAction::Nothing
            }
        }
    } else if str_eq(method, "POST") {
        if page.len() < 2 {
            MystuffAction::BadRequest
        } else {
            let p = page[1].as_str();
            if str_eq(p, "upload") {
                MystuffAction::UploadFile
            } else if str_eq(p, "post") {
                MystuffAction::Publish
            } else if str_eq(p, "draft") {
                MystuffAction::SaveDraft
            } else {
                MystuffAction::Nothing
            }
        }
    } else {
        MystuffAction::Nothing
    }
}

/// What the projects part of the site does.
#[derive(Debug, Clone, Copy, PartialEq, Eq, Structural)]
pub enum ProjectsAction {
    /// Serve the projects page.
    ListPage,
    /// List a range of projects as JSON.
    Previews,
    /// Answer nothing.
    Nothing,
}

/// The projects action for the path segments `page`.
pub open spec fn projects_action_of(page: Seq<Seq<char>>) -> ProjectsAction {
    if page.len() < 2 {
        ProjectsAction::ListPage
    } else if page.len() == 3 && page[1] == "previews"@ {
        ProjectsAction::Previews
    } else {
        ProjectsAction::Nothing
    }
}

/// The projects action for the path segments `page`.
pub fn projects_action(page: &Vec<String>) -> (r: ProjectsAction)
    ensures
        r == projects_action_of(views(page@)),
{
    if page.len() < 2 {
        ProjectsAction::ListPage
    } else if page.len() == 3 && str_eq(page[1].as_str(), "previews") {
        ProjectsAction::Previews
    } else {
        ProjectsAction::Nothing
    }
}

// ------------------------------------------------------------------
// Ranges of listings
// ------------------------------------------------------------------

/// The range `left-right` that a listing request asks for: two unsigned
/// numbers separated by the first `-`.
pub open spec fn range_of(s: Seq<char>) -> Option<(nat, nat)> {
    match split_once(s, "-"@) {
        Some((a, b)) => match (parse_unsigned(a, usize::MAX as nat), parse_unsigned(b, usize::MAX as nat)) {
            (Ok(l), Ok(r)) => Some((l, r)),
            _ => None,
        },
        None => None,
    }
}

/// The range that a listing request asks for.
pub fn parse_range(s: &str) -> (r: Option<(usize, usize)>)
    ensures
        match r {
            Some((l, h)) => range_of(s@) == Some((l as nat, h as nat)),
            None => range_of(s@) is None,
        },
{
    match split_once_str(s, "-") {
        Some((a, b)) => match parse_usize(a.as_str()) {
            Ok(l) => match parse_usize(b.as_str()) {
                Ok(h) => Some((l, h)),
                Err(_) => None,
            },
            Err(_) => None,
        },
        None => None,
    }
}

} // verus!
