//! Which windows and groups of tabs a session remembers, tab by tab.
use crate::session::windows::{
    group_of, is_apart, place, seen_tabs, state_of, tab_groups_of, turned, WindowInfo,
};
use crate::session::{
    groups_in, lists_of, numbers_in, numbers_text, session_after, window_lists, StoredSession,
    WindowId,
};
use crate::text::laws::joining_puts_the_separator_between;
use crate::text::{decimal, joined};
use vstd::prelude::*;

verus! {

/// `p` is the first place where the number stands in the list.
pub open spec fn is_first_place(list: Seq<u64>, id: u64, p: int) -> bool {
    &&& 0 <= p < list.len()
    &&& list[p] == id
    &&& forall|j: int| 0 <= j < p ==> #[trigger] list[j] != id
}

/// The group holds the tabs of the list in their cyclic order, from the number on; where the
/// number is not among them, from the first on.
pub open spec fn is_cyclic_group(group: Seq<u64>, list: Seq<u64>, id: u64) -> bool {
    &&& group.len() == list.len()
    &&& forall|p: int, i: int| #[trigger]
        is_first_place(list, id, p) && 0 <= i < list.len() ==> #[trigger] group[i] == list[(p + i)
            % list.len() as int]
    &&& !list.contains(id) ==> group == list
}

proof fn lemma_first_place(list: Seq<u64>, id: u64, p: int)
    requires
        is_first_place(list, id, p),
    ensures
        place(list, id) == p,
    decreases list.len(),
{
    if p > 0 {
        assert(list[0] != id);
        let rest = list.drop_first();
        assert forall|j: int| 0 <= j < p - 1 implies #[trigger] rest[j] != id by {
            assert(list[j + 1] != id);
        }
        lemma_first_place(rest, id, p - 1);
    }
}

proof fn lemma_no_place(list: Seq<u64>, id: u64)
    requires
        !list.contains(id),
    ensures
        place(list, id) == list.len(),
    decreases list.len(),
{
    if list.len() > 0 {
        assert(list[0] != id);
        let rest = list.drop_first();
        if rest.contains(id) {
            let j = choose|j: int| 0 <= j < rest.len() && rest[j] == id;
            assert(list[j + 1] == id);
        }
        lemma_no_place(rest, id);
    }
}

/// Turning a list keeps its cyclic order: where `p` is the first place of the number in a list of
/// n tabs, entry i of the turned list is entry (p + i) mod n of the list, for every i below n. A
/// list that the number is not in stays as it is.
pub proof fn turning_keeps_the_cyclic_order(list: Seq<u64>, id: u64)
    ensures
        is_cyclic_group(turned(list, id), list, id),
{
    let group = turned(list, id);
    let n = list.len() as int;
    if list.contains(id) {
        let k = choose|k: int| 0 <= k < list.len() && list[k] == id;
        assert(list[k] == id);
    } else {
        lemma_no_place(list, id);
        assert(group =~= list);
    }
    assert forall|p: int, i: int| #[trigger]
        is_first_place(list, id, p) && 0 <= i < list.len() implies #[trigger] group[i] == list[(p
        + i) % n] by {
        lemma_first_place(list, id, p);
        if p + i < n {
            vstd::arithmetic::div_mod::lemma_small_mod((p + i) as nat, n as nat);
        } else {
            vstd::arithmetic::div_mod::lemma_fundamental_div_mod_converse(p + i, n, 1, p + i - n);
        }
    }
    lemma_length(list, id);
}

proof fn lemma_length(list: Seq<u64>, id: u64)
    ensures
        0 <= place(list, id) <= list.len(),
        turned(list, id).len() == list.len(),
    decreases list.len(),
{
    if list.len() > 0 && list[0] != id {
        lemma_length(list.drop_first(), id);
    }
}

/// The window takes part in a tab bar, and that is known to have more than one tab.
pub open spec fn has_tab_bar(window: WindowInfo) -> bool {
    window.participates && (window.tabs matches Some(tabs) && tabs@.len() > 1)
}

/// The tab is in the bar of the window.
pub open spec fn is_tab_of(window: WindowInfo, tab: u64) -> bool {
    has_tab_bar(window) && window.tabs->Some_0@.contains(tab)
}

/// The bar of window `i` is to be remembered: no tab of it is in the bar of an earlier window.
pub open spec fn is_remembered(windows: Seq<WindowInfo>, i: int) -> bool {
    &&& 0 <= i < windows.len()
    &&& has_tab_bar(windows[i])
    &&& forall|h: int, tab: u64|
        0 <= h < i && #[trigger] is_tab_of(windows[h], tab) ==> !is_tab_of(windows[i], tab)
}

/// How many of the bars of the first `n` windows are to be remembered.
pub open spec fn remembered_before(windows: Seq<WindowInfo>, n: int) -> nat
    decreases n,
{
    if n <= 0 {
        0
    } else if is_remembered(windows, n - 1) {
        remembered_before(windows, n - 1) + 1
    } else {
        remembered_before(windows, n - 1)
    }
}

proof fn lemma_elements(list: Seq<u64>, id: u64, tab: u64)
    ensures
        turned(list, id).contains(tab) <==> list.contains(tab),
{
    lemma_length(list, id);
    let at = place(list, id);
    let group = turned(list, id);
    if list.contains(tab) {
        let k = choose|k: int| 0 <= k < list.len() && list[k] == tab;
        if k >= at {
            assert(group[k - at] == tab);
        } else {
            assert(group[list.len() - at + k] == tab);
        }
    }
    if group.contains(tab) {
        let k = choose|k: int| 0 <= k < group.len() && group[k] == tab;
        if k < list.len() - at {
            assert(list[k + at] == tab);
        } else {
            assert(list[k - (list.len() - at)] == tab);
        }
    }
}

proof fn lemma_seen(windows: Seq<WindowInfo>, tab: u64)
    ensures
        seen_tabs(windows).contains(tab) <==> exists|h: int|
            0 <= h < windows.len() && #[trigger] is_tab_of(windows[h], tab),
    decreases windows.len(),
{
    if windows.len() > 0 {
        let earlier = windows.drop_last();
        let last = windows.last();
        lemma_seen(earlier, tab);
        if has_tab_bar(last) {
            lemma_elements(last.tabs->Some_0@, last.id, tab);
        }
        assert(windows[windows.len() - 1] == last);
        if seen_tabs(earlier).contains(tab) {
            let h = choose|h: int|
                0 <= h < earlier.len() && #[trigger] is_tab_of(earlier[h], tab);
            assert(is_tab_of(windows[h], tab));
        }
        if is_tab_of(last, tab) {
            assert(is_tab_of(windows[windows.len() - 1], tab));
        }
        if exists|h: int| 0 <= h < windows.len() && #[trigger] is_tab_of(windows[h], tab) {
            let h = choose|h: int|
                0 <= h < windows.len() && #[trigger] is_tab_of(windows[h], tab);
            if h < earlier.len() {
                assert(is_tab_of(earlier[h], tab));
            }
        }
    }
}

proof fn lemma_apart(windows: Seq<WindowInfo>)
    requires
        windows.len() > 0,
        has_tab_bar(windows.last()),
    ensures
        is_apart(group_of(windows.last())->Some_0, seen_tabs(windows.drop_last()))
            <==> is_remembered(windows, windows.len() - 1),
{
    let n = windows.len() - 1;
    let earlier = windows.drop_last();
    let last = windows.last();
    let list = last.tabs->Some_0@;
    let group = group_of(last)->Some_0;
    if is_apart(group, seen_tabs(earlier)) {
        assert forall|h: int, tab: u64|
            0 <= h < n && #[trigger] is_tab_of(windows[h], tab) implies !is_tab_of(
            windows[n],
            tab,
        ) by {
            lemma_seen(earlier, tab);
            assert(is_tab_of(earlier[h], tab));
            lemma_elements(list, last.id, tab);
            if group.contains(tab) {
                let k = choose|k: int| 0 <= k < group.len() && group[k] == tab;
                assert(!seen_tabs(earlier).contains(group[k]));
            }
        }
    } else {
        let k = choose|k: int|
            0 <= k < group.len() && seen_tabs(earlier).contains(#[trigger] group[k]);
        let tab = group[k];
        lemma_seen(earlier, tab);
        let h = choose|h: int| 0 <= h < earlier.len() && #[trigger] is_tab_of(earlier[h], tab);
        assert(is_tab_of(windows[h], tab));
        lemma_elements(list, last.id, tab);
        assert(is_tab_of(windows[n], tab));
    }
}

proof fn lemma_remembered(windows: Seq<WindowInfo>, n: int)
    requires
        0 <= n < windows.len(),
    ensures
        forall|i: int|
            0 <= i < windows.len() - 1 ==> is_remembered(windows, i) == #[trigger] is_remembered(
                windows.drop_last(),
                i,
            ),
        remembered_before(windows, n) == remembered_before(windows.drop_last(), n),
    decreases n,
{
    let earlier = windows.drop_last();
    assert forall|i: int| 0 <= i < windows.len() - 1 implies is_remembered(windows, i)
        == #[trigger] is_remembered(earlier, i) by {
        assert(earlier[i] == windows[i]);
        if is_remembered(windows, i) {
            assert forall|h: int, tab: u64|
                0 <= h < i && #[trigger] is_tab_of(earlier[h], tab) implies !is_tab_of(
                earlier[i],
                tab,
            ) by {
                assert(is_tab_of(windows[h], tab));
            }
        }
        if is_remembered(earlier, i) {
            assert forall|h: int, tab: u64|
                0 <= h < i && #[trigger] is_tab_of(windows[h], tab) implies !is_tab_of(
                windows[i],
                tab,
            ) by {
                assert(is_tab_of(earlier[h], tab));
            }
        }
    }
    if n > 0 {
        lemma_remembered(windows, n - 1);
        assert(is_remembered(windows, n - 1) == is_remembered(earlier, n - 1));
    }
}

proof fn lemma_groups(windows: Seq<WindowInfo>)
    ensures
        tab_groups_of(windows).len() == remembered_before(windows, windows.len() as int),
        forall|i: int| #[trigger]
            is_remembered(windows, i) ==> remembered_before(windows, i) < tab_groups_of(
                windows,
            ).len() && is_cyclic_group(
                tab_groups_of(windows)[remembered_before(windows, i) as int],
                windows[i].tabs->Some_0@,
                windows[i].id,
            ),
    decreases windows.len(),
{
    if windows.len() > 0 {
        let n = windows.len() - 1;
        let earlier = windows.drop_last();
        let last = windows.last();
        lemma_groups(earlier);
        lemma_remembered(windows, n);
        if has_tab_bar(last) {
            lemma_apart(windows);
            turning_keeps_the_cyclic_order(last.tabs->Some_0@, last.id);
        }
        assert forall|i: int| #[trigger] is_remembered(windows, i) implies remembered_before(
            windows,
            i,
        ) < tab_groups_of(windows).len() && is_cyclic_group(
            tab_groups_of(windows)[remembered_before(windows, i) as int],
            windows[i].tabs->Some_0@,
            windows[i].id,
        ) by {
            if i < n {
                assert(is_remembered(earlier, i));
                lemma_remembered(windows, i);
                assert(earlier[i] == windows[i]);
            }
        }
    }
}

/// Every window of the stack is remembered, in order. Of the tab bars exactly those are that share
/// no tab with the bar of an earlier window, in the order of their windows and each with its tabs
/// in cyclic order from the tab of the window on; a window that takes part in no bar, or whose bar
/// has a single tab, stands for none and hides none.
pub proof fn windows_and_tab_bars_are_remembered(windows: Seq<WindowInfo>)
    ensures
        state_of(windows).stack.len() == windows.len(),
        forall|i: int|
            0 <= i < windows.len() ==> #[trigger] state_of(windows).stack[i] == windows[i].id,
        state_of(windows).tab_groups.len() == remembered_before(windows, windows.len() as int),
        forall|i: int| #[trigger]
            is_remembered(windows, i) ==> remembered_before(windows, i) < state_of(
                windows,
            ).tab_groups.len() && is_cyclic_group(
                state_of(windows).tab_groups[remembered_before(windows, i) as int],
                windows[i].tabs->Some_0@,
                windows[i].id,
            ),
{
    lemma_groups(windows);
}

/// What a session knows of the last one is what was stored of it: its identifier, and the windows
/// and groups of windows with the numbers that are read from the texts, each in its place. Of a
/// text that is missing or cannot be read it knows nothing, whatever the other texts are.
pub proof fn a_session_knows_what_was_stored(id: Seq<char>, stored: StoredSession)
    ensures
        session_after(id, stored).id == id,
        match stored.session_id {
            Some(old_id) => session_after(id, stored).old_id == Some(old_id@),
            None => session_after(id, stored).old_id is None,
        },
        session_after(id, stored).old_window_ids is Some <==> (stored.window_stack matches Some(
            text,
        ) && numbers_in(text@) is Some),
        session_after(id, stored).old_window_ids matches Some(windows) ==> {
            let numbers = numbers_in(stored.window_stack->Some_0@)->Some_0;
            &&& windows.len() == numbers.len()
            &&& forall|i: int| 0 <= i < windows.len() ==> (#[trigger] windows[i]).id == numbers[i]
        },
        session_after(id, stored).old_window_tab_groups is Some <==> (
        stored.window_tab_groups matches Some(text) && groups_in(text@) is Some),
        session_after(id, stored).old_window_tab_groups matches Some(groups) ==> {
            let lists = groups_in(stored.window_tab_groups->Some_0@)->Some_0;
            &&& groups.len() == lists.len()
            &&& forall|k: int|
                0 <= k < groups.len() ==> (#[trigger] groups[k]).len() == lists[k].len()
            &&& forall|k: int, i: int|
                0 <= k < groups.len() && 0 <= i < groups[k].len() ==> (#[trigger] groups[k][i]).id
                    == lists[k][i]
        },
{
}

/// Lists of numbers, and of windows, are told as they stand.
pub proof fn lists_are_told_as_they_stand(
    numbers: Seq<Vec<u64>>,
    windows: Seq<Vec<WindowId>>,
    i: int,
)
    ensures
        lists_of(numbers).len() == numbers.len(),
        0 <= i < numbers.len() ==> lists_of(numbers)[i] == numbers[i]@,
        window_lists(windows).len() == windows.len(),
        0 <= i < windows.len() ==> window_lists(windows)[i] == windows[i]@,
{
}

/// A list of numbers is written in decimal, in order, with commas between the numbers and brackets
/// around them.
pub proof fn numbers_are_written_in_order(a: Seq<u64>, b: Seq<u64>, n: u64)
    requires
        a.len() > 0,
        b.len() > 0,
    ensures
        numbers_text(Seq::empty()) == seq!['[', ']'],
        numbers_text(seq![n]) == seq!['['] + decimal(n as nat) + seq![']'],
        numbers_text(a + b).drop_last() + seq![']'] == numbers_text(a + b),
        numbers_text(a + b) == numbers_text(a).drop_last().push(',') + numbers_text(b).drop_first(),
{
    let f = |n: u64| decimal(n as nat);
    assert(Seq::<u64>::empty().map_values(f) =~= Seq::empty());
    assert(seq![n].map_values(f) =~= seq![decimal(n as nat)]);
    joining_puts_the_separator_between(
        a.map_values(f),
        b.map_values(f),
        ',',
        decimal(n as nat),
    );
    assert((a + b).map_values(f) =~= a.map_values(f) + b.map_values(f));
    assert(numbers_text(Seq::empty()) =~= seq!['[', ']']);
    let x = joined(a.map_values(f), ',');
    let y = joined(b.map_values(f), ',');
    assert(numbers_text(a).drop_last() =~= seq!['['] + x);
    assert(numbers_text(b).drop_first() =~= y + seq![']']);
    assert(numbers_text(a + b) =~= numbers_text(a).drop_last().push(',') + numbers_text(
        b,
    ).drop_first());
    assert(numbers_text(a + b).drop_last() + seq![']'] =~= numbers_text(a + b));
}

} // verus!
