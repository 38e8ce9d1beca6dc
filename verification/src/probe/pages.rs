//! Pages that a probe reads from a file, one JSON object to a line.

use vstd::prelude::*;

use crate::numbers::{decimal, decimal_text};
use crate::search::compile::{blank, is_blank};
use crate::text::{opt_text, same_text, texts};

verus! {

/// A page to be published.
#[derive(Debug)]
pub struct SourcePage {
    /// Path inside the project.
    pub path: String,
    /// Title.
    pub title: String,
    /// Body.
    pub body: String,
}

/// Whether a line holds a page; blank ones are passed over.
pub fn holds_page(line: &str) -> (found: bool)
    ensures
        found == !blank(line@),
{
    !is_blank(line)
}

/// What is said of a line that lacks a text.
pub open spec fn lacks(file: Seq<char>, line: nat, name: Seq<char>) -> Seq<char> {
    file + ":"@ + decimal(line) + " has no string `"@ + name + "`"@
}

/// What is said of a line that is no JSON.
pub open spec fn unparsed(file: Seq<char>, line: nat, why: Seq<char>) -> Seq<char> {
    "parsing "@ + file + ":"@ + decimal(line) + ": "@ + why
}

/// The members of a JSON object: each name, and the text behind it where that is a string.
pub type Members = Vec<(String, Option<String>)>;

/// What members say.
pub open spec fn members_view(members: Seq<(String, Option<String>)>) -> Seq<
    (Seq<char>, Option<Seq<char>>),
> {
    Seq::new(members.len(), |i: int| (members[i].0@, opt_text(members[i].1)))
}

/// What the parsing of a line says.
pub open spec fn parsed_view(parsed: Result<Option<Members>, String>) -> Result<
    Option<Seq<(Seq<char>, Option<Seq<char>>)>>,
    Seq<char>,
> {
    match parsed {
        Ok(Some(members)) => Ok(Some(members_view(members@))),
        Ok(None) => Ok(None),
        Err(why) => Err(why@),
    }
}

/// What `serde_json` parses `text` to: the members of an object, nothing for another value,
/// or what it says of a text that is no JSON.
pub uninterp spec fn json_members(text: Seq<char>) -> Result<
    Option<Seq<(Seq<char>, Option<Seq<char>>)>>,
    Seq<char>,
>;

/// `serde_json::from_str` into a `serde_json::Value`, of which the members of an object are
/// kept: each name, with the text of a string. What the text parses to is a function of the
/// text alone; which it is, is not said here.
#[verifier::external_body]
fn parse_members(text: &str) -> (parsed: Result<Option<Members>, String>)
    ensures
        parsed_view(parsed) == json_members(text@),
{
    match serde_json::from_str::<serde_json::Value>(text) {
        Ok(serde_json::Value::Object(members)) => Ok(
            Some(members.into_iter().map(|(name, value)| (name, match value {
                serde_json::Value::String(text) => Some(text),
                _ => None,
            })).collect()),
        ),
        Ok(_) => Ok(None),
        Err(error) => Err(error.to_string()),
    }
}

/// The text behind a name among members, at or after `from`: that of the first member with
/// this name.
pub open spec fn text_behind(
    members: Seq<(Seq<char>, Option<Seq<char>>)>,
    name: Seq<char>,
    from: int,
) -> Option<Seq<char>>
    decreases members.len() - from,
{
    if 0 <= from < members.len() {
        if members[from].0 == name {
            members[from].1
        } else {
            text_behind(members, name, from + 1)
        }
    } else {
        None
    }
}

/// The text of a member, which must be there.
pub open spec fn owed_text(
    file: Seq<char>,
    line: nat,
    members: Seq<(Seq<char>, Option<Seq<char>>)>,
    name: Seq<char>,
) -> Result<Seq<char>, Seq<char>> {
    match text_behind(members, name, 0) {
        Some(text) => Ok(text),
        None => Err(lacks(file, line, name)),
    }
}

/// What a `SourcePage` says.
pub struct SourcePageView {
    pub path: Seq<char>,
    pub title: Seq<char>,
    pub body: Seq<char>,
}

impl View for SourcePage {
    type V = SourcePageView;

    open spec fn view(&self) -> SourcePageView {
        SourcePageView { path: self.path@, title: self.title@, body: self.body@ }
    }
}

/// The page of a line, from what the line parses to; or what is wrong with it: it is no
/// JSON, or the first of the three texts that is not there.
pub open spec fn page_of(
    file: Seq<char>,
    line: nat,
    parsed: Result<Option<Seq<(Seq<char>, Option<Seq<char>>)>>, Seq<char>>,
) -> Result<SourcePageView, Seq<char>> {
    match parsed {
        Err(why) => Err(unparsed(file, line, why)),
        Ok(found) => {
            let members = match found {
                Some(members) => members,
                None => Seq::empty(),
            };
            match owed_text(file, line, members, "path"@) {
                Err(why) => Err(why),
                Ok(path) => match owed_text(file, line, members, "title"@) {
                    Err(why) => Err(why),
                    Ok(title) => match owed_text(file, line, members, "body"@) {
                        Err(why) => Err(why),
                        Ok(body) => Ok(SourcePageView { path, title, body }),
                    },
                },
            }
        },
    }
}

/// What a page that was read says.
pub open spec fn page_view(page: Result<SourcePage, String>) -> Result<
    SourcePageView,
    Seq<char>,
> {
    match page {
        Ok(p) => Ok(p@),
        Err(why) => Err(why@),
    }
}

/// The text of a member, which must be there.
fn take_text(file: &str, line: u64, members: &Members, name: &str) -> (text: Result<
    String,
    String,
>)
    ensures
        (match text {
            Ok(t) => Ok(t@),
            Err(why) => Err(why@),
        }) == owed_text(file@, line as nat, members_view(members@), name@),
{
    let ghost all = members_view(members@);
    let mut i: usize = 0;
    while i < members.len()
        invariant
            all == members_view(members@),
            i <= members@.len(),
            text_behind(all, name@, 0) == text_behind(all, name@, i as int),
        decreases members@.len() - i,
    {
        if same_text(members[i].0.as_str(), name) {
            if let Some(text) = &members[i].1 {
                return Ok(text.clone());
            }
            return Err(lacking(file, line, name));
        }
        i += 1;
    }
    Err(lacking(file, line, name))
}

/// What is said of a line that lacks a text.
fn lacking(file: &str, line: u64, name: &str) -> (why: String)
    ensures
        why@ == lacks(file@, line as nat, name@),
{
    let mut why: String = file.to_owned();
    why.append(":");
    why.append(decimal_text(line).as_str());
    why.append(" has no string `");
    why.append(name);
    why.append("`");
    why
}

/// The page of a line of a file, counted from one, from what the line parses to.
pub fn source_page(file: &str, line: u64, parsed: Result<Option<Members>, String>) -> (page: Result<
    SourcePage,
    String,
>)
    ensures
        page_view(page) == page_of(file@, line as nat, parsed_view(parsed)),
{
    let none: Members = Vec::new();
    assert(members_view(none@) =~= Seq::empty());
    let members: Members = match parsed {
        Ok(Some(members)) => members,
        Ok(None) => none,
        Err(what) => {
            let mut why: String = "parsing ".to_owned();
            why.append(file);
            why.append(":");
            why.append(decimal_text(line).as_str());
            why.append(": ");
            why.append(what.as_str());
            return Err(why);
        },
    };
    let path: String = match take_text(file, line, &members, "path") {
        Ok(text) => text,
        Err(why) => {
            return Err(why);
        },
    };
    let title: String = match take_text(file, line, &members, "title") {
        Ok(text) => text,
        Err(why) => {
            return Err(why);
        },
    };
    let body: String = match take_text(file, line, &members, "body") {
        Ok(text) => text,
        Err(why) => {
            return Err(why);
        },
    };
    Ok(SourcePage { path, title, body })
}

/// The page that a line of a file holds, counted from one.
pub fn source_page_of(file: &str, line: u64, text: &str) -> (page: Result<SourcePage, String>)
    ensures
        page_view(page) == page_of(file@, line as nat, json_members(text@)),
{
    source_page(file, line, parse_members(text))
}

/// What a list of pages says.
pub open spec fn pages_view(pages: Seq<SourcePage>) -> Seq<SourcePageView> {
    Seq::new(pages.len(), |i: int| pages[i]@)
}

/// The pages of the first `n` lines of a file, blank ones passed over; or what is wrong
/// with the first line that holds none.
pub open spec fn pages_upto(file: Seq<char>, lines: Seq<Seq<char>>, n: int) -> Result<
    Seq<SourcePageView>,
    Seq<char>,
>
    decreases n,
{
    if n <= 0 {
        Ok(Seq::empty())
    } else {
        match pages_upto(file, lines, n - 1) {
            Err(why) => Err(why),
            Ok(before) => if blank(lines[n - 1]) {
                Ok(before)
            } else {
                match page_of(file, n as nat, json_members(lines[n - 1])) {
                    Ok(page) => Ok(before.push(page)),
                    Err(why) => Err(why),
                }
            },
        }
    }
}

/// What is wrong with a line is wrong with the file.
proof fn lemma_first_bad_line(file: Seq<char>, lines: Seq<Seq<char>>, n: int, m: int)
    requires
        0 <= n <= m,
        pages_upto(file, lines, n) is Err,
    ensures
        pages_upto(file, lines, m) == pages_upto(file, lines, n),
    decreases m,
{
    if n < m {
        lemma_first_bad_line(file, lines, n, m - 1);
    }
}

/// The pages of the lines of a file.
pub fn source_pages(file: &str, lines: &Vec<String>) -> (pages: Result<Vec<SourcePage>, String>)
    ensures
        (match pages {
            Ok(list) => Ok(pages_view(list@)),
            Err(why) => Err(why@),
        }) == pages_upto(file@, texts(lines@), lines@.len() as int),
{
    let ghost all = texts(lines@);
    let mut pages: Vec<SourcePage> = Vec::new();
    let mut i: usize = 0;
    assert(pages_view(pages@) =~= Seq::empty());
    while i < lines.len()
        invariant
            all == texts(lines@),
            i <= lines@.len(),
            pages_upto(file@, all, i as int) == Ok::<Seq<SourcePageView>, Seq<char>>(
                pages_view(pages@),
            ),
        decreases lines@.len() - i,
    {
        if holds_page(lines[i].as_str()) {
            match source_page_of(file, i as u64 + 1, lines[i].as_str()) {
                Ok(page) => {
                    let ghost before = pages_view(pages@);
                    pages.push(page);
                    assert(pages_view(pages@) =~= before.push(page@));
                },
                Err(why) => {
                    proof {
                        lemma_first_bad_line(file@, all, i + 1, all.len() as int);
                    }
                    return Err(why);
                },
            }
        }
        i += 1;
    }
    Ok(pages)
}

/// Whether a file held any page.
pub fn check_pages(file: &str, count: usize) -> (checked: Result<(), String>)
    ensures
        match checked {
            Ok(_) => count > 0,
            Err(why) => count == 0 && why@ == "no pages in "@ + file@,
        },
{
    if count == 0 {
        let mut why: String = "no pages in ".to_owned();
        why.append(file);
        Err(why)
    } else {
        Ok(())
    }
}

/// Where the objects of a workspace live.
pub fn workspace_prefix(workspace: &str) -> (prefix: String)
    ensures
        prefix@ == "v1/ws/"@ + workspace@,
{
    let mut prefix: String = "v1/ws/".to_owned();
    prefix.append(workspace);
    prefix
}

/// What a probe ends with: nothing where no check failed.
pub fn verdict(failures: usize) -> (result: Result<(), String>)
    ensures
        match result {
            Ok(_) => failures == 0,
            Err(why) => failures > 0 && why@ == decimal(failures as nat) + " checks failed"@,
        },
{
    if failures == 0 {
        return Ok(());
    }
    let mut why: String = decimal_text(failures as u64);
    why.append(" checks failed");
    Err(why)
}

} // verus!
