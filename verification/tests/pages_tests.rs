use homesite::pages::{
    auth_action, background_for_day, background_path, contains_name, file_path, home_file,
    mystuff_action, parse_range, prepend_post, projects_action, random_bg, removed_message,
    segment, tail_path, upload_path, AuthAction, MystuffAction, ProjectsAction,
};

fn strings(v: &[&str]) -> Vec<String> {
    v.iter().map(|s| s.to_string()).collect()
}

#[test]
fn home_files() {
    assert_eq!(home_file(""), Some("assets/main.html"));
    assert_eq!(home_file("favicon.ico"), Some("assets/icon.ico"));
    assert_eq!(home_file("any_pfp.png"), Some("assets/pfps/1.png"));
    assert_eq!(home_file("any_bg.png"), None);
    assert_eq!(home_file("other"), Some("assets/404.png"));
}

#[test]
fn background_is_from_the_listing_and_fixed_per_day() {
    let bgs = strings(&["/a.png", "/b.png", "/c.png"]);
    for day in 1..=31 {
        let x = background_for_day(day, &bgs);
        assert!(bgs.contains(&x));
        assert_eq!(background_for_day(day, &bgs), x);
    }
    assert!(bgs.contains(&random_bg(&bgs)));
    assert_eq!(background_path("/a.png"), "assets/bgs/a.png");
}

#[test]
fn tail_paths() {
    let page = strings(&["assets", "img", "a.png"]);
    assert_eq!(tail_path(&page, 1, 2, ""), Some("img/a.png".to_string()));
    assert_eq!(tail_path(&page, 1, 2, ".html"), Some("img/a.png.html".to_string()));
    assert_eq!(tail_path(&strings(&["assets"]), 1, 2, ""), None);
    assert_eq!(tail_path(&strings(&["mystuff", "draft"]), 2, 2, ""), Some("".to_string()));
}

#[test]
fn listing_membership_and_segments() {
    let listing = strings(&["a.png", "img/b.png"]);
    assert!(contains_name(&listing, "img/b.png"));
    assert!(!contains_name(&listing, "b.png"));
    let page = strings(&["mystuff", "delete", "x.html"]);
    assert_eq!(segment(&page, 2), Some("x.html".to_string()));
    assert_eq!(segment(&page, 3), None);
}

#[test]
fn paths_and_messages() {
    assert_eq!(file_path("drafts/", "x", ".html"), "drafts/x.html");
    assert_eq!(upload_path(7), "assets/uploaded/7.png");
    assert_eq!(upload_path(0), "assets/uploaded/0.png");
    assert_eq!(removed_message("d1"), "removed d1");
    assert_eq!(prepend_post("new", b"old\n".to_vec()), b"new\nold\n".to_vec());
    assert_eq!(prepend_post("ü", vec![]), "ü\n".as_bytes().to_vec());
}

#[test]
fn auth_actions() {
    assert_eq!(auth_action("GET"), AuthAction::LoginPage);
    assert_eq!(auth_action("POST"), AuthAction::Login);
    assert_eq!(auth_action("PUT"), AuthAction::Nothing);
}

#[test]
fn mystuff_actions() {
    let p = |v: &[&str]| strings(v);
    assert_eq!(mystuff_action("GET", &p(&["mystuff"])), MystuffAction::Dashboard);
    assert_eq!(mystuff_action("GET", &p(&["mystuff", "drafts", "0-3"])), MystuffAction::DraftList);
    assert_eq!(mystuff_action("GET", &p(&["mystuff", "draft", "x"])), MystuffAction::LoadDraft);
    assert_eq!(mystuff_action("GET", &p(&["mystuff", "editor"])), MystuffAction::Editor);
    assert_eq!(mystuff_action("GET", &p(&["mystuff", "upload"])), MystuffAction::UploadPage);
    assert_eq!(mystuff_action("GET", &p(&["mystuff", "delete", "x"])), MystuffAction::DeleteDraft);
    assert_eq!(mystuff_action("GET", &p(&["mystuff", "other"])), MystuffAction::Nothing);
    assert_eq!(mystuff_action("POST", &p(&["mystuff"])), MystuffAction::BadRequest);
    assert_eq!(mystuff_action("POST", &p(&["mystuff", "upload"])), MystuffAction::UploadFile);
    assert_eq!(mystuff_action("POST", &p(&["mystuff", "post", "n"])), MystuffAction::Publish);
    assert_eq!(mystuff_action("POST", &p(&["mystuff", "draft", "n"])), MystuffAction::SaveDraft);
    assert_eq!(mystuff_action("POST", &p(&["mystuff", "editor"])), MystuffAction::Nothing);
    assert_eq!(mystuff_action("DELETE", &p(&["mystuff", "draft"])), MystuffAction::Nothing);
}

#[test]
fn projects_actions() {
    assert_eq!(projects_action(&strings(&["projects"])), ProjectsAction::ListPage);
    assert_eq!(projects_action(&strings(&["projects", "previews", "0-4"])), ProjectsAction::Previews);
    assert_eq!(projects_action(&strings(&["projects", "previews"])), ProjectsAction::Nothing);
    assert_eq!(projects_action(&strings(&["projects", "x", "0-4"])), ProjectsAction::Nothing);
}

#[test]
fn ranges() {
    assert_eq!(parse_range("2-5"), Some((2, 5)));
    assert_eq!(parse_range("+2-05"), Some((2, 5)));
    assert_eq!(parse_range("2"), None);
    assert_eq!(parse_range("a-3"), None);
    assert_eq!(parse_range("3-"), None);
    assert_eq!(parse_range("1-2-3"), None);
}
