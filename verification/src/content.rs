//! Drafts and projects: the header comment that describes each, the ranges
//! of them that listings return, and the pages rendered from templates.

use vstd::prelude::*;
use crate::text::{
    chars_of, find, find_chars, law_replace_absent, lemma_find_from, lemma_not_occurs_not_found,
    lines, lines_of, matches_at, occurs, owned, push_str, replace, replace_str, string_from,
    strip_prefix, strip_prefix_str, views,
};
use crate::headers::lemma_find_at;

verus! {

/// A draft of a blog post, as its header comment describes it.
#[derive(Debug, Clone)]
pub struct Draft {
    pub name: String,
    pub img: String,
    pub date: String,
    pub id: Option<String>,
    pub content: Option<String>,
}

/// A link button on a project card.
#[derive(Debug, Clone)]
pub struct Button {
    pub txt: String,
    pub dest: String,
}

/// A project, as its header comment describes it.
#[derive(Debug, Clone)]
pub struct Project {
    pub desc: String,
    pub name: String,
    pub img: String,
    pub id: Option<String>,
    pub buttons: Option<Vec<Button>>,
}

/// The optional string taken by its view.
pub open spec fn opt_string(s: Option<String>) -> Option<Seq<char>> {
    match s {
        Some(t) => Some(t@),
        None => None,
    }
}

impl Draft {
    /// The draft with its id set to `name`.
    pub fn identified(self, name: &str) -> (d: Draft)
        ensures
            d.name == self.name,
            d.img == self.img,
            d.date == self.date,
            d.content == self.content,
            opt_string(d.id) == Some(name@),
    {
        Draft { id: Some(owned(name)), ..self }
    }
}

impl Project {
    /// The project with its id set to `name`.
    pub fn identified(self, name: &str) -> (p: Project)
        ensures
            p.desc == self.desc,
            p.name == self.name,
            p.img == self.img,
            p.buttons == self.buttons,
            opt_string(p.id) == Some(name@),
    {
        Project { id: Some(owned(name)), ..self }
    }
}

// ------------------------------------------------------------------
// The header comment
// ------------------------------------------------------------------

/// A page file starts with a comment `<!--` ... `-->` that describes it;
/// this is the text inside, or the error when the file has no such comment.
pub open spec fn front_matter_of(read: Seq<char>) -> Result<Seq<char>, Seq<char>> {
    match find(read, "-->"@) {
        None => Err("Comment ending sequence not found"@),
        Some(i) => match strip_prefix(read.subrange(0, i), "<!--"@) {
            Some(info) => Ok(info),
            None => Err("Unable to strip comment prefix"@),
        },
    }
}

/// What follows the header comment of a page file.
pub open spec fn body_of(read: Seq<char>) -> Seq<char> {
    match find(read, "-->"@) {
        Some(i) => read.subrange(i + 3, read.len() as int),
        None => read,
    }
}

/// Takes a page file apart into the text of its header comment and the
/// body after it.
pub fn split_page(read: &str) -> (r: Result<(String, String), String>)
    ensures
        match r {
            Ok((info, body)) => front_matter_of(read@) == Ok::<Seq<char>, Seq<char>>(info@)
                && body@ == body_of(read@),
            Err(e) => front_matter_of(read@) == Err::<Seq<char>, Seq<char>>(e@),
        },
{
    proof {
        reveal_strlit("-->");
    }
    let v = chars_of(read);
    let end = chars_of("-->");
    let n = v.len();
    match find_chars(v.as_slice(), end.as_slice(), 0) {
        None => Err(owned("Comment ending sequence not found")),
        Some(i) => {
            proof {
                lemma_find_from(v@, end@, 0);
            }
            let head = string_from(v.as_slice(), 0, i);
            match strip_prefix_str(head.as_str(), "<!--") {
                Some(info) => {
                    let body = string_from(v.as_slice(), i + 3, n);
                    Ok((info, body))
                },
                None => Err(owned("Unable to strip comment prefix")),
            }
        },
    }
}

/// A page written as `<!--` + info + `-->` + body, where the comment does
/// not close early, splits into exactly that info and that body, whatever
/// the body holds (`-->` included): the comment ends at its first `-->`.
pub proof fn law_split_page_parts(info: Seq<char>, body: Seq<char>)
    requires
        !occurs("<!--"@ + info, "-->"@),
    ensures
        front_matter_of("<!--"@ + info + "-->"@ + body) == Ok::<Seq<char>, Seq<char>>(info),
        body_of("<!--"@ + info + "-->"@ + body) == body,
{
    reveal_strlit("<!--");
    reveal_strlit("-->");
    let head = "<!--"@ + info;
    let read = head + "-->"@ + body;
    let n = head.len() as int;
    assert(read.subrange(n, n + 3) =~= "-->"@);
    assert(matches_at(read, "-->"@, n));
    assert forall|k: int| 0 <= k < n implies !matches_at(read, "-->"@, k) by {
        if k + 3 <= n {
            assert(read.subrange(k, k + 3) =~= head.subrange(k, k + 3));
            if head.subrange(k, k + 3) == "-->"@ {
                assert(occurs(head, "-->"@));
            }
        } else {
            assert(read[k + 2] == '-');
            assert(read.subrange(k, k + 3)[2] == read[k + 2]);
            assert("-->"@[2] == '>');
        }
    }
    lemma_find_at(read, "-->"@, 0, n);
    assert(read.subrange(0, n) =~= head);
    assert(head.subrange(0, 4) =~= "<!--"@);
    assert(head.subrange(4, head.len() as int) =~= info);
    assert(read.subrange(n + 3, read.len() as int) =~= body);
}

// ------------------------------------------------------------------
// Rendering
// ------------------------------------------------------------------

/// The editor page for a draft: the template with `%EVERYTHING%` replaced by
/// the content (each `<br>` turned back into a line feed), `%NAME%` by the
/// name and `%THUMB%` by the picture.
pub open spec fn editor_page(template: Seq<char>, name: Seq<char>, img: Seq<char>, content: Seq<char>) -> Seq<char> {
    replace(
        replace(
            replace(template, "%EVERYTHING%"@, replace(content, "<br>"@, "\n"@)),
            "%NAME%"@,
            name,
        ),
        "%THUMB%"@,
        img,
    )
}

/// Renders the editor page for `draft`, whose content has been read.
pub fn render_editor(template: &str, draft: &Draft) -> (r: String)
    requires
        draft.content is Some,
    ensures
        r@ == editor_page(template@, draft.name@, draft.img@, draft.content->0@),
        !occurs(template@, "%EVERYTHING%"@) && !occurs(template@, "%NAME%"@) && !occurs(
            template@,
            "%THUMB%"@,
        ) ==> r@ == template@,
{
    proof {
        if !occurs(template@, "%EVERYTHING%"@) && !occurs(template@, "%NAME%"@) && !occurs(
            template@,
            "%THUMB%"@,
        ) {
            law_editor_keeps_plain_template(template@, draft.name@, draft.img@, draft.content->0@);
        }
    }
    proof {
        reveal_strlit("%EVERYTHING%");
        reveal_strlit("<br>");
        reveal_strlit("%NAME%");
        reveal_strlit("%THUMB%");
    }
    let content = match &draft.content {
        Some(c) => c,
        None => {
            assert(false);
            return String::new();
        },
    };
    let text = replace_str(content.as_str(), "<br>", "\n");
    let a = replace_str(template, "%EVERYTHING%", text.as_str());
    let b = replace_str(a.as_str(), "%NAME%", draft.name.as_str());
    replace_str(b.as_str(), "%THUMB%", draft.img.as_str())
}

/// A template without placeholders renders as itself: the text around the
/// placeholders is kept as it is (its `<br>` included), whatever the draft.
pub proof fn law_editor_keeps_plain_template(
    template: Seq<char>,
    name: Seq<char>,
    img: Seq<char>,
    content: Seq<char>,
)
    requires
        !occurs(template, "%EVERYTHING%"@),
        !occurs(template, "%NAME%"@),
        !occurs(template, "%THUMB%"@),
    ensures
        editor_page(template, name, img, content) == template,
{
    reveal_strlit("%EVERYTHING%");
    reveal_strlit("%NAME%");
    reveal_strlit("%THUMB%");
    lemma_not_occurs_not_found(template, "%EVERYTHING%"@);
    lemma_not_occurs_not_found(template, "%NAME%"@);
    lemma_not_occurs_not_found(template, "%THUMB%"@);
    let text = replace(content, "<br>"@, "\n"@);
    law_replace_absent(template, "%EVERYTHING%"@, text);
    law_replace_absent(template, "%NAME%"@, name);
    law_replace_absent(template, "%THUMB%"@, img);
}

/// The content's `<br>` become line feeds where it is put into the page:
/// a template that is just `%EVERYTHING%` renders as the content with each
/// `<br>` turned into a line feed, when that holds no other placeholder.
pub proof fn law_editor_content(name: Seq<char>, img: Seq<char>, content: Seq<char>)
    requires
        !occurs(replace(content, "<br>"@, "\n"@), "%NAME%"@),
        !occurs(replace(content, "<br>"@, "\n"@), "%THUMB%"@),
    ensures
        editor_page("%EVERYTHING%"@, name, img, content) == replace(content, "<br>"@, "\n"@),
{
    reveal_strlit("%EVERYTHING%");
    reveal_strlit("%NAME%");
    reveal_strlit("%THUMB%");
    let t = "%EVERYTHING%"@;
    let text = replace(content, "<br>"@, "\n"@);
    assert(t.subrange(0, t.len() as int) =~= t);
    assert(matches_at(t, t, 0));
    lemma_find_at(t, t, 0, 0);
    lemma_find_from(t, t, t.len() as int);
    assert(crate::text::split_from(t, t, t.len() as int) == seq![t.subrange(t.len() as int, t.len() as int)]);
    assert(t.subrange(0, 0) =~= Seq::<char>::empty());
    assert(t.subrange(t.len() as int, t.len() as int) =~= Seq::<char>::empty());
    let parts = crate::text::split(t, t);
    assert(parts =~= seq![Seq::<char>::empty(), Seq::<char>::empty()]);
    assert(parts.drop_last() =~= seq![Seq::<char>::empty()]);
    assert(crate::text::join(parts.drop_last(), text) =~= Seq::<char>::empty());
    assert(parts.last() =~= Seq::<char>::empty());
    assert(crate::text::join(parts, text) =~= Seq::<char>::empty() + text + Seq::<char>::empty());
    assert(crate::text::join(parts, text) =~= text);
    lemma_not_occurs_not_found(text, "%NAME%"@);
    lemma_not_occurs_not_found(text, "%THUMB%"@);
    law_replace_absent(text, "%NAME%"@, name);
    law_replace_absent(text, "%THUMB%"@, img);
}

/// Renders a project page: the template with `%EVERYTHING%` replaced by the
/// project's page.
pub fn render_project(template: &str, content: &str) -> (r: String)
    ensures
        r@ == replace(template@, "%EVERYTHING%"@, content@),
{
    proof {
        reveal_strlit("%EVERYTHING%");
    }
    replace_str(template, "%EVERYTHING%", content)
}

// ------------------------------------------------------------------
// Ranges of listings
// ------------------------------------------------------------------

/// The part `left..right` of a listing of `len` entries that a listing
/// request returns, as the bounds of it: empty where `left` lies beyond the
/// end.
pub open spec fn window(len: nat, left: nat, right: nat) -> (nat, nat) {
    let hi = if right < len { right } else { len };
    if left > hi {
        (0, 0)
    } else {
        (left, hi)
    }
}

/// The message of a failed listing: the entry that could not be read and
/// why.
pub open spec fn fetch_error(name: Seq<char>, why: Seq<char>) -> Seq<char> {
    "Error fetching project "@ + name + " : "@ + why
}

/// A listing of the window `left..right` of `list` that succeeded: one
/// result of `f` for each entry of the window, in order.
pub open spec fn listed_window<T, F: Fn(&String) -> Result<T, String>>(
    f: F,
    list: Seq<String>,
    left: nat,
    right: nat,
    v: Seq<T>,
) -> bool {
    let (lo, hi) = window(list.len(), left, right);
    &&& v.len() == hi - lo
    &&& forall|i: int| 0 <= i < v.len() ==> call_ensures(f, (&list[lo + i],), Ok(#[trigger] v[i]))
}

/// A listing of the window `left..right` of `list` that failed with the
/// message `e`: it names the first entry of the window that `f` could not
/// read, every entry before it having been read (giving `read`).
pub open spec fn failed_window<T, F: Fn(&String) -> Result<T, String>>(
    f: F,
    list: Seq<String>,
    left: nat,
    right: nat,
    e: Seq<char>,
) -> bool {
    let (lo, hi) = window(list.len(), left, right);
    exists|j: int, why: String, read: Seq<T>|
        #![trigger fetch_error(list[j]@, why@), read.len()]
        lo <= j < hi && read.len() == j - lo && (forall|i: int|
            0 <= i < read.len() ==> call_ensures(f, (&list[lo + i],), Ok(#[trigger] read[i])))
            && call_ensures(f, (&list[j],), Err(why)) && e == fetch_error(list[j]@, why@)
}

/// `f` gives one answer for each entry: two calls on the same entry agree.
pub open spec fn answers_alike<T, F: Fn(&String) -> Result<T, String>>(f: F) -> bool {
    forall|x: &String, a: Result<T, String>, b: Result<T, String>|
        call_ensures(f, (x,), a) && call_ensures(f, (x,), b) ==> a == b
}

/// Reads the entries `list[left..right]` (clamped to the listing) with
/// `preview`, in order, and stops at the first that fails.
pub fn fetch_window<T, F: Fn(&String) -> Result<T, String>>(
    list: &Vec<String>,
    left: usize,
    right: usize,
    preview: F,
) -> (r: Result<Vec<T>, String>)
    requires
        forall|i: int| 0 <= i < list@.len() ==> call_requires(preview, (&list@[i],)),
    ensures
        match r {
            Ok(v) => listed_window(preview, list@, left as nat, right as nat, v@),
            Err(e) => failed_window(preview, list@, left as nat, right as nat, e@),
        },
        left <= (if right < list@.len() { right as int } else { list@.len() as int }) ==> match r {
            Ok(v) => {
                &&& v@.len() == (if right < list@.len() { right as int } else { list@.len() as int })
                    - left
                &&& forall|i: int|
                    0 <= i < v@.len() ==> call_ensures(
                        preview,
                        (&list@[left + i],),
                        Ok(#[trigger] v@[i]),
                    )
            },
            Err(_) => true,
        },
{
    proof {
        law_window_bounds(list@.len(), left as nat, right as nat);
    }
    let n = list.len();
    let hi = if right < n { right } else { n };
    if left > hi {
        return Ok(Vec::new());
    }
    let mut out: Vec<T> = Vec::new();
    let mut i = left;
    while i < hi
        invariant
            left <= i <= hi <= n == list@.len(),
            hi == (if right < n { right } else { n }),
            forall|k: int| 0 <= k < list@.len() ==> call_requires(preview, (&list@[k],)),
            out@.len() == i - left,
            forall|k: int| 0 <= k < out@.len() ==> call_ensures(preview, (&list@[left + k],), Ok(#[trigger] out@[k])),
        decreases hi - i,
    {
        let item = &list[i];
        match preview(item) {
            Ok(x) => {
                out.push(x);
            },
            Err(why) => {
                let mut e = owned("Error fetching project ");
                push_str(&mut e, item.as_str());
                push_str(&mut e, " : ");
                push_str(&mut e, why.as_str());
                assert(e@ == fetch_error(list@[i as int]@, why@));
                assert(call_ensures(preview, (&list@[i as int],), Err(why)));
                assert(window(list@.len(), left as nat, right as nat) == (left as nat, hi as nat));
                assert(out@.len() == i - left);
                assert(failed_window(preview, list@, left as nat, right as nat, e@));
                return Err(e);
            },
        }
        i += 1;
    }
    Ok(out)
}

/// The drafts `list[left..right]` (clamped to the listing), each read with
/// `preview`; the first that cannot be read fails the whole listing.
pub fn ls_drafts<F: Fn(&String) -> Result<Draft, String>>(
    list: &Vec<String>,
    left: usize,
    right: usize,
    preview: F,
) -> (r: Result<Vec<Draft>, String>)
    requires
        forall|i: int| 0 <= i < list@.len() ==> call_requires(preview, (&list@[i],)),
    ensures
        match r {
            Ok(v) => listed_window(preview, list@, left as nat, right as nat, v@),
            Err(e) => failed_window(preview, list@, left as nat, right as nat, e@),
        },
        left <= (if right < list@.len() { right as int } else { list@.len() as int }) ==> match r {
            Ok(v) => {
                &&& v@.len() == (if right < list@.len() { right as int } else { list@.len() as int })
                    - left
                &&& forall|i: int|
                    0 <= i < v@.len() ==> call_ensures(
                        preview,
                        (&list@[left + i],),
                        Ok(#[trigger] v@[i]),
                    )
            },
            Err(_) => true,
        },
{
    proof {
        law_window_bounds(list@.len(), left as nat, right as nat);
    }
    fetch_window(list, left, right, preview)
}

/// The names in a project list file: one per line.
pub fn project_names(list_text: &str) -> (r: Vec<String>)
    ensures
        views(r@) == lines(list_text@),
{
    lines_of(list_text)
}

/// The projects `list[left..right]` (clamped to the list), each read with
/// `preview`; the first that cannot be read fails the whole listing.
pub fn ls_projects<F: Fn(&String) -> Result<Project, String>>(
    list: &Vec<String>,
    left: usize,
    right: usize,
    preview: F,
) -> (r: Result<Vec<Project>, String>)
    requires
        forall|i: int| 0 <= i < list@.len() ==> call_requires(preview, (&list@[i],)),
    ensures
        match r {
            Ok(v) => listed_window(preview, list@, left as nat, right as nat, v@),
            Err(e) => failed_window(preview, list@, left as nat, right as nat, e@),
        },
        left <= (if right < list@.len() { right as int } else { list@.len() as int }) ==> match r {
            Ok(v) => {
                &&& v@.len() == (if right < list@.len() { right as int } else { list@.len() as int })
                    - left
                &&& forall|i: int|
                    0 <= i < v@.len() ==> call_ensures(
                        preview,
                        (&list@[left + i],),
                        Ok(#[trigger] v@[i]),
                    )
            },
            Err(_) => true,
        },
{
    proof {
        law_window_bounds(list@.len(), left as nat, right as nat);
    }
    fetch_window(list, left, right, preview)
}

// ------------------------------------------------------------------
// Receiving a request body
// ------------------------------------------------------------------

/// What a read of `got` bytes of a body means when `remaining` were still
/// owed.
#[derive(Debug, Clone, Copy, PartialEq, Eq, Structural)]
pub enum Received {
    /// The connection closed before the body was complete.
    Closed,
    /// The read fits; this many bytes are still owed.
    Remaining(usize),
    /// The read brought more bytes than were owed.
    TooMuch,
}

/// What a read of `got` bytes of a body means when `remaining` were still
/// owed.
pub fn receive_step(remaining: usize, got: usize) -> (r: Received)
    ensures
        got == 0 ==> r == Received::Closed,
        0 < got <= remaining ==> r == Received::Remaining((remaining - got) as usize),
        got > remaining ==> r == Received::TooMuch,
{
    if got == 0 {
        Received::Closed
    } else if got <= remaining {
        Received::Remaining(remaining - got)
    } else {
        Received::TooMuch
    }
}

/// The length of the body that a request announces, or the refusal of a
/// body without a `Content-Length`.
pub fn body_length(content_length: Option<u64>) -> (r: Result<usize, String>)
    ensures
        match content_length {
            Some(n) => r == Ok::<usize, String>(n as usize),
            None => r matches Err(e) && e@ == "No file"@,
        },
{
    match content_length {
        Some(n) => Ok(n as usize),
        None => Err(owned("No file")),
    }
}

// ------------------------------------------------------------------
// Laws
// ------------------------------------------------------------------

/// A window that starts inside the clamped range starts at `left` and ends
/// at `right` or the end of the listing, whichever comes first; otherwise it
/// is empty.
pub proof fn law_window_bounds(len: nat, left: nat, right: nat)
    ensures
        ({
            let hi = if right < len { right } else { len };
            &&& left <= hi ==> window(len, left, right) == (left, hi)
            &&& left > hi ==> window(len, left, right).0 == window(len, left, right).1
        }),
{
}

/// A successful listing of `left..right` that starts inside the listing has
/// one entry for each of `list[left..min(right, len)]`, in order: entry `i`
/// is what `f` gives for `list[left + i]`.
pub proof fn law_listing_entries<T, F: Fn(&String) -> Result<T, String>>(
    f: F,
    list: Seq<String>,
    left: nat,
    right: nat,
    v: Seq<T>,
)
    requires
        listed_window(f, list, left, right, v),
        left <= (if right < list.len() { right } else { list.len() }),
    ensures
        v.len() == (if right < list.len() { right } else { list.len() }) - left,
        forall|i: int|
            0 <= i < v.len() ==> call_ensures(f, (&list[left + i],), Ok(#[trigger] v[i])),
{
    law_window_bounds(list.len(), left, right);
}

/// Bounding a window by the length of the listing changes nothing.
pub proof fn law_window_clamped(len: nat, left: nat, right: nat)
    ensures
        window(len, left, right) == window(len, left, if right < len { right } else { len }),
{
}

/// Two adjacent windows of a listing, each listed in full, make up the
/// window that spans both, when the entries read the same each time.
pub proof fn law_windows_concatenate<T, F: Fn(&String) -> Result<T, String>>(
    f: F,
    list: Seq<String>,
    l: nat,
    m: nat,
    r: nat,
    v1: Seq<T>,
    v2: Seq<T>,
    v3: Seq<T>,
)
    requires
        answers_alike(f),
        l <= m <= r,
        listed_window(f, list, l, m, v1),
        listed_window(f, list, m, r, v2),
        listed_window(f, list, l, r, v3),
    ensures
        v1 + v2 == v3,
{
    let n = list.len();
    let (lo1, hi1) = window(n, l, m);
    let (lo2, hi2) = window(n, m, r);
    let (lo3, hi3) = window(n, l, r);
    assert forall|i: int| 0 <= i < v3.len() implies #[trigger] (v1 + v2)[i] == v3[i] by {
        assert(call_ensures(f, (&list[lo3 + i],), Ok(v3[i])));
        if i < v1.len() {
            assert(call_ensures(f, (&list[lo1 + i],), Ok(v1[i])));
            assert(lo1 + i == lo3 + i);
            assert(Ok::<T, String>(v1[i]) == Ok::<T, String>(v3[i]));
        } else {
            let i2 = i - v1.len();
            assert(call_ensures(f, (&list[lo2 + i2],), Ok(v2[i2])));
            assert(lo2 + i2 == lo3 + i);
            assert(Ok::<T, String>(v2[i2]) == Ok::<T, String>(v3[i]));
        }
    }
    assert(v1 + v2 =~= v3);
}

} // verus!
