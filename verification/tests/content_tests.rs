use homesite::content::{
    body_length, ls_drafts, ls_projects, project_names, receive_step, render_editor, render_project,
    split_page, Draft, Project, Received,
};

fn strings(v: &[&str]) -> Vec<String> {
    v.iter().map(|s| s.to_string()).collect()
}

fn draft(name: &str) -> Draft {
    Draft {
        name: name.to_string(),
        img: format!("{}.png", name),
        date: "2024".to_string(),
        id: None,
        content: None,
    }
}

#[test]
fn page_header_comment() {
    assert_eq!(
        split_page("<!--name = \"x\"-->body<br>"),
        Ok(("name = \"x\"".to_string(), "body<br>".to_string()))
    );
    assert_eq!(split_page("no comment"), Err("Comment ending sequence not found".to_string()));
    assert_eq!(split_page("xx-->b"), Err("Unable to strip comment prefix".to_string()));
    assert_eq!(split_page("<!---->"), Ok((String::new(), String::new())));
}

#[test]
fn editor_page() {
    let mut d = draft("post");
    d.content = Some("line1<br>line2".to_string());
    let page = render_editor("<t>%NAME%|%THUMB%|%EVERYTHING%|%NAME%</t>", &d);
    assert_eq!(page, "<t>post|post.png|line1\nline2|post</t>");
}

#[test]
fn project_page() {
    assert_eq!(render_project("<main>%EVERYTHING%</main>", "hi"), "<main>hi</main>");
    assert_eq!(render_project("no slot", "hi"), "no slot");
}

#[test]
fn draft_windows() {
    let list = strings(&["a", "b", "c", "d", "e"]);
    let ok = |n: &String| Ok(draft(n));
    let names = |v: Vec<Draft>| v.into_iter().map(|d| d.name).collect::<Vec<_>>();
    assert_eq!(names(ls_drafts(&list, 1, 3, ok).unwrap()), strings(&["b", "c"]));
    assert_eq!(names(ls_drafts(&list, 4, 10, ok).unwrap()), strings(&["e"]));
    assert_eq!(names(ls_drafts(&list, 5, 10, ok).unwrap()), Vec::<String>::new());
    assert_eq!(names(ls_drafts(&list, 6, 10, ok).unwrap()), Vec::<String>::new());
    assert_eq!(names(ls_drafts(&list, 3, 1, ok).unwrap()), Vec::<String>::new());
}

#[test]
fn draft_window_failure() {
    let list = strings(&["a", "b", "c"]);
    let r = ls_drafts(&list, 0, 3, |n: &String| {
        if n == "b" { Err("nope".to_string()) } else { Ok(draft(n)) }
    });
    assert_eq!(r.err(), Some("Error fetching project b : nope".to_string()));
    let r = ls_drafts(&list, 2, 3, |n: &String| {
        if n == "b" { Err("nope".to_string()) } else { Ok(draft(n)) }
    });
    assert!(r.is_ok());
}

#[test]
fn project_list() {
    let names = project_names("one\r\ntwo\nthree\n");
    assert_eq!(names, strings(&["one", "two", "three"]));
    let preview = |n: &String| {
        Ok(Project {
            desc: String::new(),
            name: n.clone(),
            img: String::new(),
            id: None,
            buttons: None,
        }
        .identified(n))
    };
    let got = ls_projects(&names, 1, 100, preview).unwrap();
    assert_eq!(got.len(), 2);
    assert_eq!(got[0].id, Some("two".to_string()));
    assert_eq!(got[1].name, "three");
}

#[test]
fn identified_sets_only_the_id() {
    let d = draft("x").identified("x.html");
    assert_eq!(d.id, Some("x.html".to_string()));
    assert_eq!(d.name, "x");
    assert_eq!(d.img, "x.png");
}

#[test]
fn receiving_a_body() {
    assert_eq!(receive_step(10, 4), Received::Remaining(6));
    assert_eq!(receive_step(4, 4), Received::Remaining(0));
    assert_eq!(receive_step(4, 0), Received::Closed);
    assert_eq!(receive_step(4, 5), Received::TooMuch);
    assert_eq!(body_length(Some(12)), Ok(12));
    assert_eq!(body_length(None), Err("No file".to_string()));
}

#[test]
fn draft_window_failure_names_the_first() {
    let list = strings(&["a", "b", "c"]);
    let r = ls_drafts(&list, 0, 3, |n: &String| {
        if n == "a" { Ok(draft(n)) } else { Err(format!("bad {}", n)) }
    });
    assert_eq!(r.err(), Some("Error fetching project b : bad b".to_string()));
}

#[test]
fn windows_concatenate() {
    let list = strings(&["a", "b", "c", "d"]);
    let ok = |n: &String| Ok(draft(n));
    let names = |v: Vec<Draft>| v.into_iter().map(|d| d.name).collect::<Vec<_>>();
    let mut joined = names(ls_drafts(&list, 1, 2, ok).unwrap());
    joined.extend(names(ls_drafts(&list, 2, 9, ok).unwrap()));
    assert_eq!(joined, names(ls_drafts(&list, 1, 9, ok).unwrap()));
    assert_eq!(names(ls_drafts(&list, 1, 9, ok).unwrap()), names(ls_drafts(&list, 1, 4, ok).unwrap()));
}
