//! Page versions and the chain of versions behind a page.

use vstd::prelude::*;

use crate::numbers::{decimal, decimal_text};
use crate::sort::{in_order, law_sorting_orders_the_same_items, sort, stable_sorted, Ranked};
use crate::store::records::{PageVersion, WalEntry, WalEntryView};
use crate::store::session::MAX_HISTORY_DEPTH;
use crate::store::version::{ErrorView, StoreError};
use crate::text::{
    comes_before, lemma_lex_asymmetric, lemma_lex_total, lex_less, opt_text, same_text, texts,
};

verus! {

/// Who asked for a page version.
#[derive(Clone, Copy, Debug, PartialEq, Eq, Structural)]
pub enum Asked {
    /// The manifest names it.
    ByManifest,
    /// The caller names it.
    ByCaller,
}

/// What is told about an object that holds another version than the one asked for.
pub open spec fn wrong_version(
    asked: Asked,
    key: Seq<char>,
    found: Seq<char>,
    expected: Seq<char>,
) -> Seq<char> {
    match asked {
        Asked::ByManifest => key + " holds "@ + found + " but the manifest names "@ + expected,
        Asked::ByCaller => key + " holds "@ + found + " but "@ + expected + " was requested"@,
    }
}

/// The page version under `key`, when it is the one that was asked for.
pub fn checked_page(asked: Asked, key: &str, expected: &str, page: PageVersion) -> (checked: Result<
    PageVersion,
    StoreError,
>)
    ensures
        match checked {
            Ok(found) => found == page && page@.page_id == expected@,
            Err(error) => page@.page_id != expected@ && error@ == ErrorView::Corrupt(
                wrong_version(asked, key@, page@.page_id, expected@),
            ),
        },
{
    if same_text(page.page_id.as_str(), expected) {
        return Ok(page);
    }
    let mut what: String = key.to_owned();
    what.append(" holds ");
    what.append(page.page_id.as_str());
    match asked {
        Asked::ByManifest => {
            what.append(" but the manifest names ");
            what.append(expected);
        },
        Asked::ByCaller => {
            what.append(" but ");
            what.append(expected);
            what.append(" was requested");
        },
    }
    Err(StoreError::Corrupt(what))
}

/// What a list of write-ahead records says.
pub open spec fn wal_view(list: Seq<WalEntry>) -> Seq<WalEntryView> {
    Seq::new(list.len(), |i: int| list[i]@)
}

/// Whether the records lead from the version `head` back to a version whose
/// predecessor is `rest`: each supersedes the next.
pub open spec fn leads_back(
    head: Option<Seq<char>>,
    newest_first: Seq<WalEntryView>,
    rest: Option<Seq<char>>,
) -> bool {
    &&& newest_first.len() == 0 ==> rest == head
    &&& newest_first.len() > 0 ==> head == Some(newest_first[0].page_id) && rest
        == newest_first.last().supersedes
    &&& forall|i: int|
        0 <= i < newest_first.len() - 1 ==> (#[trigger] newest_first[i]).supersedes == Some(
            newest_first[i + 1].page_id,
        )
}

/// Whether the records are the whole history behind `head`, the oldest first: the
/// first supersedes nothing, each other one supersedes the one before it, and the
/// last is `head`.
pub open spec fn is_history(head: Option<Seq<char>>, list: Seq<WalEntryView>) -> bool {
    &&& list.len() == 0 <==> head is None
    &&& list.len() > 0 ==> head == Some(list.last().page_id) && list[0].supersedes is None
    &&& forall|i: int|
        0 < i < list.len() ==> (#[trigger] list[i]).supersedes == Some(list[i - 1].page_id)
}

/// The walk along the versions of a page, from the current one back.
#[derive(Debug)]
pub struct HistoryWalk {
    /// Path of the page.
    pub path: String,
    /// Current version of the page, if any.
    pub head: Option<String>,
    /// Version whose record is being read.
    pub expecting: Option<String>,
    /// Records read so far, the newest first.
    pub newest_first: Vec<WalEntry>,
}

/// What a walk along the versions leads to.
#[derive(Debug)]
pub enum HistoryStep {
    /// Read the record of this version.
    Read(String),
    /// The history is read: its records with the oldest first.
    Done(Vec<WalEntry>),
    /// The chain is broken.
    Failed(StoreError),
}

/// What is told about a history that does not end.
pub open spec fn endless_history(path: Seq<char>) -> Seq<char> {
    "supersession chain for "@ + path + " exceeds "@ + decimal(MAX_HISTORY_DEPTH as nat)
        + " links"@
}

/// What is told about a record of another version than the one expected.
pub open spec fn broken_link(key: Seq<char>, found: Seq<char>, expected: Seq<char>) -> Seq<char> {
    key + " holds "@ + found + " but the chain expects "@ + expected
}

/// What is told where a link of a chain cannot be read: one that is missing breaks the
/// chain.
pub open spec fn link_failure(key: Seq<char>, error: ErrorView) -> ErrorView {
    if error is NotFound {
        ErrorView::Corrupt(key + " is missing from the chain"@)
    } else {
        error
    }
}

/// What is told where a link of a chain cannot be read.
pub(crate) fn link_failed(key: &str, error: StoreError) -> (told: StoreError)
    ensures
        told@ == link_failure(key@, error@),
{
    match error {
        StoreError::NotFound => {
            let mut what: String = key.to_owned();
            what.append(" is missing from the chain");
            StoreError::Corrupt(what)
        },
        _ => error,
    }
}

/// The list turned around.
fn reversed(list: Vec<WalEntry>) -> (turned: Vec<WalEntry>)
    ensures
        turned@ == list@.reverse(),
{
    let ghost all = list@;
    let mut left: Vec<WalEntry> = list;
    let mut turned: Vec<WalEntry> = Vec::new();
    assert(all.take(all.len() as int) =~= all);
    loop
        invariant
            left@ == all.take(left@.len() as int),
            left@.len() + turned@.len() == all.len(),
            forall|i: int| 0 <= i < turned@.len() ==> turned@[i] == all[all.len() - 1 - i],
        ensures
            turned@ == all.reverse(),
        decreases left@.len(),
    {
        match left.pop() {
            Some(item) => {
                assert(left@ =~= all.take(left@.len() as int));
                turned.push(item);
            },
            None => {
                assert(turned@ =~= all.reverse());
                break ;
            },
        }
    }
    turned
}

/// Records that lead back to a version without a predecessor are, turned around,
/// the whole history.
proof fn lemma_turned_history(head: Option<Seq<char>>, newest_first: Seq<WalEntryView>)
    requires
        leads_back(head, newest_first, None),
    ensures
        is_history(head, newest_first.reverse()),
{
    let list = newest_first.reverse();
    assert forall|i: int| 0 < i < list.len() implies (#[trigger] list[i]).supersedes == Some(
        list[i - 1].page_id,
    ) by {
        let k: int = newest_first.len() - 1 - i;
        assert(list[i] == newest_first[k]);
        assert(list[i - 1] == newest_first[k + 1]);
    }
    if newest_first.len() > 0 {
        assert(list[0] == newest_first.last());
        assert(list.last() == newest_first[0]);
    }
}

impl HistoryWalk {
    /// What was read leads from the current version to the one being read.
    pub open spec fn wf(&self) -> bool {
        &&& self.newest_first@.len() < MAX_HISTORY_DEPTH
        &&& self.expecting is Some
        &&& leads_back(
            opt_text(self.head),
            wal_view(self.newest_first@),
            opt_text(self.expecting),
        )
    }

    /// The start of a walk, from the current version of the page; a page that has
    /// none has no history.
    pub fn start(path: String, head: Option<String>) -> (next: (HistoryWalk, HistoryStep))
        ensures
            next.0.path == path,
            next.0.head == head,
            next.0.newest_first@.len() == 0,
            match head {
                Some(id) => next.0.wf() && next.0.expecting == Some(id) && (
                next.1 matches HistoryStep::Read(wanted) && wanted == id),
                None => next.1 matches HistoryStep::Done(list) && list@.len() == 0,
            },
    {
        let step: HistoryStep = match &head {
            Some(id) => HistoryStep::Read(id.clone()),
            None => HistoryStep::Done(Vec::new()),
        };
        let expecting: Option<String> = match &head {
            Some(id) => Some(id.clone()),
            None => None,
        };
        (HistoryWalk { path, head, expecting, newest_first: Vec::new() }, step)
    }

    /// Takes in the record that was read under `key` and says where the walk goes
    /// on.
    pub fn next(self, key: &str, reply: Result<WalEntry, StoreError>) -> (next: (
        HistoryWalk,
        HistoryStep,
    ))
        requires
            self.wf(),
        ensures
            next.0.path == self.path,
            next.0.head == self.head,
            match reply {
                Err(error) => next.1 matches HistoryStep::Failed(e) && e@ == link_failure(
                    key@,
                    error@,
                ),
                Ok(entry) => if Some(entry@.page_id) != opt_text(self.expecting) {
                    next.1 matches HistoryStep::Failed(e) && e@ == ErrorView::Corrupt(
                        broken_link(key@, entry@.page_id, self.expecting->0@),
                    )
                } else {
                    match entry@.supersedes {
                        None => next.1 matches HistoryStep::Done(list) && wal_view(list@)
                            == wal_view(self.newest_first@).push(entry@).reverse() && is_history(
                            opt_text(self.head),
                            wal_view(list@),
                        ),
                        Some(id) => if self.newest_first@.len() + 1 >= MAX_HISTORY_DEPTH {
                            next.1 matches HistoryStep::Failed(e) && e@ == ErrorView::Corrupt(
                                endless_history(self.path@),
                            )
                        } else {
                            next.0.wf() && opt_text(next.0.expecting) == Some(id) && (
                            next.1 matches HistoryStep::Read(wanted) && wanted@ == id)
                                && wal_view(next.0.newest_first@) == wal_view(
                                self.newest_first@,
                            ).push(entry@)
                        },
                    }
                },
            },
    {
        let HistoryWalk { path, head, expecting, newest_first } = self;
        let entry: WalEntry = match reply {
            Ok(entry) => entry,
            Err(error) => {
                return (
                    HistoryWalk { path, head, expecting, newest_first },
                    HistoryStep::Failed(link_failed(key, error)),
                );
            },
        };
        let wanted: String = match &expecting {
            Some(id) => id.clone(),
            None => String::new(),
        };
        if !same_text(entry.page_id.as_str(), wanted.as_str()) {
            let mut what: String = key.to_owned();
            what.append(" holds ");
            what.append(entry.page_id.as_str());
            what.append(" but the chain expects ");
            what.append(wanted.as_str());
            return (
                HistoryWalk { path, head, expecting, newest_first },
                HistoryStep::Failed(StoreError::Corrupt(what)),
            );
        }
        let cursor: Option<String> = match &entry.supersedes {
            Some(id) => Some(id.clone()),
            None => None,
        };
        let ghost before = wal_view(newest_first@);
        let mut list: Vec<WalEntry> = newest_first;
        list.push(entry);
        proof {
            let now = wal_view(list@);
            assert(now =~= before.push(entry@));
            assert forall|i: int| 0 <= i < now.len() - 1 implies (#[trigger] now[i]).supersedes
                == Some(now[i + 1].page_id) by {
                if i < before.len() - 1 {
                    assert(before[i].supersedes == Some(before[i + 1].page_id));
                } else {
                    assert(before.last().supersedes == Some(entry@.page_id));
                }
            }
            assert(leads_back(opt_text(head), now, opt_text(cursor)));
        }
        match cursor {
            None => {
                let ghost all = list@;
                proof {
                    lemma_turned_history(opt_text(head), wal_view(all));
                }
                let done: Vec<WalEntry> = reversed(list);
                assert(wal_view(done@) =~= wal_view(all).reverse());
                (
                    HistoryWalk { path, head, expecting: None, newest_first: Vec::new() },
                    HistoryStep::Done(done),
                )
            },
            Some(id) => {
                if list.len() >= MAX_HISTORY_DEPTH {
                    let mut what: String = "supersession chain for ".to_owned();
                    what.append(path.as_str());
                    what.append(" exceeds ");
                    what.append(decimal_text(MAX_HISTORY_DEPTH as u64).as_str());
                    what.append(" links");
                    (
                        HistoryWalk { path, head, expecting: Some(id), newest_first: list },
                        HistoryStep::Failed(StoreError::Corrupt(what)),
                    )
                } else {
                    let step: HistoryStep = HistoryStep::Read(id.clone());
                    (
                        HistoryWalk { path, head, expecting: Some(id), newest_first: list },
                        step,
                    )
                }
            },
        }
    }
}

impl Ranked for WalEntry {
    open spec fn precedes(self, other: Self) -> bool {
        lex_less(self.page_id@, other.page_id@)
    }

    fn ranks_before(&self, other: &Self) -> (before: bool) {
        comes_before(self.page_id.as_str(), other.page_id.as_str())
    }

    proof fn precedes_is_asymmetric(a: Self, b: Self) {
        lemma_lex_asymmetric(a.page_id@, b.page_id@);
    }

    proof fn precedes_has_no_gaps(a: Self, b: Self, c: Self) {
        crate::sort::lemma_lex_no_gaps(a.page_id@, b.page_id@, c.page_id@);
    }
}

/// The records of versions that were committed; a record of an attempt that never won
/// its swap is left out.
pub open spec fn committed_only(list: Seq<WalEntry>, committed: Seq<Seq<char>>) -> Seq<WalEntry>
    decreases list.len(),
{
    if list.len() == 0 {
        Seq::empty()
    } else if committed.contains(list[0].page_id@) {
        seq![list[0]] + committed_only(list.skip(1), committed)
    } else {
        committed_only(list.skip(1), committed)
    }
}

/// Whether a list holds a text.
fn holds(list: &Vec<String>, text: &str) -> (found: bool)
    ensures
        found == texts(list@).contains(text@),
{
    let mut i: usize = 0;
    while i < list.len()
        invariant
            i <= list@.len(),
            forall|j: int| 0 <= j < i ==> #[trigger] texts(list@)[j] != text@,
        decreases list@.len() - i,
    {
        if same_text(list[i].as_str(), text) {
            assert(texts(list@)[i as int] == text@);
            return true;
        }
        i += 1;
    }
    false
}

/// The committed write-ahead records by page id. `committed` are the versions in the
/// chains that the manifest keeps.
pub fn ordered_wal(list: Vec<WalEntry>, committed: &Vec<String>) -> (ordered: Vec<WalEntry>)
    ensures
        ordered@ == stable_sorted(committed_only(list@, texts(committed@))),
{
    let ghost all = list@;
    let ghost ids = texts(committed@);
    let mut left: Vec<WalEntry> = list;
    let mut kept: Vec<WalEntry> = Vec::new();
    assert(all.skip(all.len() as int) =~= Seq::empty());
    assert(all.take(all.len() as int) =~= all);
    loop
        invariant
            ids == texts(committed@),
            left@.len() <= all.len(),
            left@ == all.take(left@.len() as int),
            kept@.reverse() =~= committed_only(all.skip(left@.len() as int), ids),
        ensures
            kept@.reverse() == committed_only(all, ids),
        decreases left@.len(),
    {
        let ghost n = left@.len();
        match left.pop() {
            Some(entry) => {
                proof {
                    assert(left@ =~= all.take(n - 1));
                    assert(all.skip(n - 1)[0] == entry);
                    assert(all.skip(n - 1).skip(1) =~= all.skip(n as int));
                }
                if holds(committed, entry.page_id.as_str()) {
                    let ghost before = kept@;
                    kept.push(entry);
                    assert(kept@.reverse() =~= seq![entry] + before.reverse());
                }
            },
            None => {
                assert(all.skip(0) =~= all);
                break ;
            },
        }
    }
    sort(reversed(kept))
}

proof fn lemma_committed_only(list: Seq<WalEntry>, committed: Seq<Seq<char>>)
    ensures
        forall|i: int|
            0 <= i < committed_only(list, committed).len() ==> committed.contains(
                (#[trigger] committed_only(list, committed)[i]).page_id@,
            ) && list.contains(committed_only(list, committed)[i]),
        forall|i: int|
            0 <= i < list.len() && committed.contains((#[trigger] list[i]).page_id@)
                ==> committed_only(list, committed).contains(list[i]),
    decreases list.len(),
{
    if list.len() > 0 {
        let rest = list.skip(1);
        let kept = committed_only(list, committed);
        let later = committed_only(rest, committed);
        lemma_committed_only(rest, committed);
        let shift: int = if committed.contains(list[0].page_id@) {
            1
        } else {
            0
        };
        assert forall|i: int| 0 <= i < kept.len() implies committed.contains(
            (#[trigger] kept[i]).page_id@,
        ) && list.contains(kept[i]) by {
            if i >= shift {
                assert(kept[i] == later[i - shift]);
                let j = choose|j: int| 0 <= j < rest.len() && rest[j] == later[i - shift];
                assert(list[j + 1] == kept[i]);
            } else {
                assert(kept[i] == list[0]);
            }
        }
        assert forall|i: int|
            0 <= i < list.len() && committed.contains(
                (#[trigger] list[i]).page_id@,
            ) implies kept.contains(list[i]) by {
            if i == 0 {
                assert(kept[0] == list[0]);
            } else {
                assert(rest[i - 1] == list[i]);
                let j = choose|j: int| 0 <= j < later.len() && later[j] == rest[i - 1];
                assert(kept[j + shift] == list[i]);
            }
        }
    }
}

/// Records of different versions stay different when some are left out.
proof fn lemma_committed_distinct(list: Seq<WalEntry>, committed: Seq<Seq<char>>)
    requires
        forall|i: int, j: int|
            0 <= i < j < list.len() ==> (#[trigger] list[i]).page_id@ != (
            #[trigger] list[j]).page_id@,
    ensures
        forall|i: int, j: int|
            0 <= i < j < committed_only(list, committed).len() ==> (
            #[trigger] committed_only(list, committed)[i]).page_id@ != (
            #[trigger] committed_only(list, committed)[j]).page_id@,
    decreases list.len(),
{
    if list.len() > 0 {
        let rest = list.skip(1);
        let kept = committed_only(list, committed);
        let later = committed_only(rest, committed);
        assert forall|i: int, j: int| 0 <= i < j < rest.len() implies (
        #[trigger] rest[i]).page_id@ != (#[trigger] rest[j]).page_id@ by {
            assert(list[i + 1].page_id@ != list[j + 1].page_id@);
        }
        lemma_committed_distinct(rest, committed);
        lemma_committed_only(rest, committed);
        if committed.contains(list[0].page_id@) {
            assert forall|i: int, j: int| 0 <= i < j < kept.len() implies (
            #[trigger] kept[i]).page_id@ != (#[trigger] kept[j]).page_id@ by {
                assert(kept[j] == later[j - 1]);
                if i == 0 {
                    let k = choose|k: int| 0 <= k < rest.len() && rest[k] == later[j - 1];
                    assert(list[k + 1] == kept[j]);
                    assert(list[0].page_id@ != list[k + 1].page_id@);
                } else {
                    assert(kept[i] == later[i - 1]);
                }
            }
        }
    }
}

/// What is read of the log is what was committed: every committed record that was listed,
/// none of an attempt that never won its swap, in the order of the page ids; and where no
/// two of the listed records are of one version, each version once.
pub proof fn law_only_committed_records_are_read(
    list: Seq<WalEntry>,
    committed: Seq<Seq<char>>,
)
    ensures
        ({
            let read = stable_sorted(committed_only(list, committed));
            &&& in_order(read)
            &&& forall|i: int|
                0 <= i < read.len() ==> committed.contains((#[trigger] read[i]).page_id@)
                    && list.contains(read[i])
            &&& forall|i: int|
                0 <= i < list.len() && committed.contains((#[trigger] list[i]).page_id@)
                    ==> read.contains(list[i])
            &&& (forall|i: int, j: int|
                0 <= i < j < list.len() ==> (#[trigger] list[i]).page_id@ != (
                #[trigger] list[j]).page_id@) ==> forall|i: int, j: int|
                0 <= i < j < read.len() ==> lex_less(
                    (#[trigger] read[i]).page_id@,
                    (#[trigger] read[j]).page_id@,
                )
        }),
{
    broadcast use vstd::seq_lib::group_to_multiset_ensures;

    let kept = committed_only(list, committed);
    let read = stable_sorted(kept);
    law_sorting_orders_the_same_items(kept);
    lemma_committed_only(list, committed);
    assert forall|i: int| 0 <= i < read.len() implies committed.contains(
        (#[trigger] read[i]).page_id@,
    ) && list.contains(read[i]) by {
        assert(read.contains(read[i]));
        assert(read.to_multiset().count(read[i]) > 0);
        assert(kept.contains(read[i]));
    }
    assert forall|i: int|
        0 <= i < list.len() && committed.contains(
            (#[trigger] list[i]).page_id@,
        ) implies read.contains(list[i]) by {
        assert(kept.contains(list[i]));
        assert(kept.to_multiset().count(list[i]) > 0);
    }
    if forall|i: int, j: int|
        0 <= i < j < list.len() ==> (#[trigger] list[i]).page_id@ != (
        #[trigger] list[j]).page_id@ {
        lemma_committed_distinct(list, committed);
        lemma_ids_apart(kept, read);
        assert forall|i: int, j: int| 0 <= i < j < read.len() implies lex_less(
            (#[trigger] read[i]).page_id@,
            (#[trigger] read[j]).page_id@,
        ) by {
            assert(!read[j].precedes(read[i]));
            lemma_lex_total(read[i].page_id@, read[j].page_id@);
        }
    }
}

/// The same records in another order are of different versions too.
proof fn lemma_ids_apart(kept: Seq<WalEntry>, read: Seq<WalEntry>)
    requires
        kept.to_multiset() == read.to_multiset(),
        forall|i: int, j: int|
            0 <= i < j < kept.len() ==> (#[trigger] kept[i]).page_id@ != (
            #[trigger] kept[j]).page_id@,
    ensures
        forall|i: int, j: int|
            0 <= i < j < read.len() ==> (#[trigger] read[i]).page_id@ != (
            #[trigger] read[j]).page_id@,
{
    broadcast use vstd::seq_lib::group_to_multiset_ensures;

    assert(kept.no_duplicates());
    kept.lemma_multiset_has_no_duplicates();
    read.lemma_multiset_has_no_duplicates_conv();
    assert forall|i: int, j: int| 0 <= i < j < read.len() implies (
    #[trigger] read[i]).page_id@ != (#[trigger] read[j]).page_id@ by {
        assert(read.contains(read[i]) && read.contains(read[j]));
        assert(read.to_multiset().count(read[i]) > 0 && read.to_multiset().count(read[j]) > 0);
        let a = choose|a: int| 0 <= a < kept.len() && kept[a] == read[i];
        let b = choose|b: int| 0 <= b < kept.len() && kept[b] == read[j];
        assert(read[i] != read[j]);
        assert(a != b);
    }
}

} // verus!
