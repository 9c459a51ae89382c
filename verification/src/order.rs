//! The order in which tabs choose their keys: sorted, complete, and independent of how the tabs
//! are shown.
use crate::plan::{goes_before, line_up, line_up_one, Tab};
use vstd::prelude::*;

verus! {

/// No two tabs have the same id.
pub open spec fn distinct_ids(tabs: Seq<Tab>) -> bool {
    forall|i: int, j: int| 0 <= i < j < tabs.len() ==> (#[trigger] tabs[i]).id != (
    #[trigger] tabs[j]).id
}

/// No tab goes before one that stands in front of it.
pub open spec fn is_lined_up(
    icon: Seq<char>,
    known: Map<usize, Seq<char>>,
    line: Seq<Tab>,
) -> bool {
    forall|i: int, j: int|
        0 <= i < j < line.len() ==> !goes_before(
            icon,
            known,
            #[trigger] line[j],
            #[trigger] line[i],
        )
}

proof fn lemma_line_up_one(
    icon: Seq<char>,
    known: Map<usize, Seq<char>>,
    line: Seq<Tab>,
    tab: Tab,
)
    requires
        is_lined_up(icon, known, line),
    ensures
        line_up_one(icon, known, line, tab).len() == line.len() + 1,
        forall|t: Tab| #[trigger]
            line_up_one(icon, known, line, tab).contains(t) <==> line.contains(t) || t == tab,
        is_lined_up(icon, known, line_up_one(icon, known, line, tab)),
        line.no_duplicates() && !line.contains(tab) ==> line_up_one(
            icon,
            known,
            line,
            tab,
        ).no_duplicates(),
    decreases line.len(),
{
    let longer = line_up_one(icon, known, line, tab);
    if line.len() == 0 || !goes_before(icon, known, tab, line.last()) {
        assert(longer == line.push(tab));
        assert(longer[line.len() as int] == tab);
        assert forall|t: Tab| #[trigger] longer.contains(t) <==> line.contains(t) || t == tab by {
            if line.contains(t) {
                let i = choose|i: int| 0 <= i < line.len() && line[i] == t;
                assert(longer[i] == t);
            }
            if longer.contains(t) && t != tab {
                let i = choose|i: int| 0 <= i < longer.len() && longer[i] == t;
                assert(line[i] == t);
            }
        }
        assert forall|i: int, j: int| 0 <= i < j < longer.len() implies !goes_before(
            icon,
            known,
            #[trigger] longer[j],
            #[trigger] longer[i],
        ) by {
            if j == line.len() && i < line.len() - 1 {
                assert(!goes_before(icon, known, line[line.len() - 1], line[i]));
            }
        }
    } else {
        let shorter = line.drop_last();
        let last = line.last();
        lemma_line_up_one(icon, known, shorter, tab);
        let front = line_up_one(icon, known, shorter, tab);
        assert(longer == front.push(last));
        assert(line =~= shorter.push(last));
        assert forall|t: Tab| #[trigger] longer.contains(t) <==> line.contains(t) || t == tab by {
            assert(line.contains(t) <==> shorter.contains(t) || t == last) by {
                if shorter.contains(t) {
                    let i = choose|i: int| 0 <= i < shorter.len() && shorter[i] == t;
                    assert(line[i] == t);
                }
                if line.contains(t) && t != last {
                    let i = choose|i: int| 0 <= i < line.len() && line[i] == t;
                    assert(shorter[i] == t);
                }
                assert(line[line.len() - 1] == last);
            }
            assert(longer.contains(t) <==> front.contains(t) || t == last) by {
                if front.contains(t) {
                    let i = choose|i: int| 0 <= i < front.len() && front[i] == t;
                    assert(longer[i] == t);
                }
                if longer.contains(t) && t != last {
                    let i = choose|i: int| 0 <= i < longer.len() && longer[i] == t;
                    assert(front[i] == t);
                }
                assert(longer[longer.len() - 1] == last);
            }
        }
        assert forall|i: int, j: int| 0 <= i < j < longer.len() implies !goes_before(
            icon,
            known,
            #[trigger] longer[j],
            #[trigger] longer[i],
        ) by {
            if j == front.len() {
                assert(front.contains(front[i]));
                assert(longer[i] == front[i]);
                if front[i] != tab {
                    let k = choose|k: int| 0 <= k < shorter.len() && shorter[k] == front[i];
                    assert(line[k] == front[i]);
                    assert(!goes_before(icon, known, line[line.len() - 1], line[k]));
                }
            }
        }
        if line.no_duplicates() && !line.contains(tab) {
            assert(shorter.no_duplicates());
            assert(!shorter.contains(tab)) by {
                if shorter.contains(tab) {
                    let i = choose|i: int| 0 <= i < shorter.len() && shorter[i] == tab;
                    assert(line[i] == tab);
                }
            }
            assert(!front.contains(last)) by {
                if shorter.contains(last) {
                    let i = choose|i: int| 0 <= i < shorter.len() && shorter[i] == last;
                    assert(line[i] == last && line[line.len() - 1] == last);
                }
                assert(line.contains(last)) by {
                    assert(line[line.len() - 1] == last);
                }
            }
            assert(front.push(last).no_duplicates());
        }
    }
}

/// Every tab stands in the line, nothing else does, and the line is sorted.
pub proof fn lemma_line_up(icon: Seq<char>, known: Map<usize, Seq<char>>, tabs: Seq<Tab>)
    ensures
        line_up(icon, known, tabs).len() == tabs.len(),
        forall|t: Tab| #[trigger] line_up(icon, known, tabs).contains(t) <==> tabs.contains(t),
        is_lined_up(icon, known, line_up(icon, known, tabs)),
        distinct_ids(tabs) ==> line_up(icon, known, tabs).no_duplicates(),
    decreases tabs.len(),
{
    let line = line_up(icon, known, tabs);
    if tabs.len() == 0 {
        assert(line =~= tabs);
    } else {
        let shorter = tabs.drop_last();
        let last = tabs.last();
        let front = line_up(icon, known, shorter);
        lemma_line_up(icon, known, shorter);
        lemma_line_up_one(icon, known, front, last);
        assert forall|t: Tab| #[trigger] line.contains(t) <==> tabs.contains(t) by {
            if shorter.contains(t) {
                let i = choose|i: int| 0 <= i < shorter.len() && shorter[i] == t;
                assert(tabs[i] == t);
            }
            if tabs.contains(t) && t != last {
                let i = choose|i: int| 0 <= i < tabs.len() && tabs[i] == t;
                assert(shorter[i] == t);
            }
            assert(tabs[tabs.len() - 1] == last);
            assert(front.contains(t) <==> shorter.contains(t));
        }
        if distinct_ids(tabs) {
            assert(distinct_ids(shorter)) by {
                assert forall|i: int, j: int| 0 <= i < j < shorter.len() implies (
                #[trigger] shorter[i]).id != (#[trigger] shorter[j]).id by {
                    assert(tabs[i].id != tabs[j].id);
                }
            }
            assert(!front.contains(last)) by {
                if front.contains(last) {
                    assert(shorter.contains(last));
                    let i = choose|i: int| 0 <= i < shorter.len() && shorter[i] == last;
                    assert(tabs[i].id != tabs[tabs.len() - 1].id);
                }
            }
        }
    }
}

/// Tabs with different ids are different, and equal ids mean the same tab.
pub proof fn lemma_id_tells(tabs: Seq<Tab>, a: Tab, b: Tab)
    requires
        distinct_ids(tabs),
        tabs.contains(a),
        tabs.contains(b),
        a.id == b.id,
    ensures
        a == b,
{
    let i = choose|i: int| 0 <= i < tabs.len() && tabs[i] == a;
    let j = choose|j: int| 0 <= j < tabs.len() && tabs[j] == b;
    if i < j {
        assert(tabs[i].id != tabs[j].id);
    } else if j < i {
        assert(tabs[j].id != tabs[i].id);
    }
}

/// Two sorted lines of the same tabs are the same line.
proof fn lemma_lines_agree(
    icon: Seq<char>,
    known: Map<usize, Seq<char>>,
    tabs: Seq<Tab>,
    a: Seq<Tab>,
    b: Seq<Tab>,
)
    requires
        distinct_ids(tabs),
        a.len() == b.len(),
        forall|t: Tab| #[trigger] a.contains(t) ==> tabs.contains(t),
        forall|t: Tab| #[trigger] a.contains(t) <==> b.contains(t),
        a.no_duplicates(),
        b.no_duplicates(),
        is_lined_up(icon, known, a),
        is_lined_up(icon, known, b),
    ensures
        a == b,
    decreases a.len(),
{
    if a.len() == 0 {
        assert(a =~= b);
    } else {
        let x = a.last();
        let y = b.last();
        assert(a[a.len() - 1] == x && b[b.len() - 1] == y);
        assert(a.contains(x) && b.contains(y));
        assert(a.contains(y) && b.contains(x));
        let i = choose|i: int| 0 <= i < a.len() && a[i] == y;
        let j = choose|j: int| 0 <= j < b.len() && b[j] == x;
        if x != y {
            assert(!goes_before(icon, known, a[a.len() - 1], a[i]));
            assert(!goes_before(icon, known, b[b.len() - 1], b[j]));
            assert(x.id == y.id);
            lemma_id_tells(tabs, x, y);
        }
        let a0 = a.drop_last();
        let b0 = b.drop_last();
        assert forall|t: Tab| #[trigger] a0.contains(t) <==> b0.contains(t) by {
            assert(a0.contains(t) <==> a.contains(t) && t != x) by {
                if a0.contains(t) {
                    let k = choose|k: int| 0 <= k < a0.len() && a0[k] == t;
                    assert(a[k] == t);
                }
                if a.contains(t) && t != x {
                    let k = choose|k: int| 0 <= k < a.len() && a[k] == t;
                    assert(a0[k] == t);
                }
            }
            assert(b0.contains(t) <==> b.contains(t) && t != x) by {
                if b0.contains(t) {
                    let k = choose|k: int| 0 <= k < b0.len() && b0[k] == t;
                    assert(b[k] == t);
                }
                if b.contains(t) && t != x {
                    let k = choose|k: int| 0 <= k < b.len() && b[k] == t;
                    assert(b0[k] == t);
                }
            }
        }
        assert forall|t: Tab| #[trigger] a0.contains(t) implies tabs.contains(t) by {
            let k = choose|k: int| 0 <= k < a0.len() && a0[k] == t;
            assert(a[k] == t);
            assert(a.contains(t));
        }
        assert forall|i: int, j: int| 0 <= i < j < a0.len() implies !goes_before(
            icon,
            known,
            #[trigger] a0[j],
            #[trigger] a0[i],
        ) by {
            assert(!goes_before(icon, known, a[j], a[i]));
        }
        assert forall|i: int, j: int| 0 <= i < j < b0.len() implies !goes_before(
            icon,
            known,
            #[trigger] b0[j],
            #[trigger] b0[i],
        ) by {
            assert(!goes_before(icon, known, b[j], b[i]));
        }
        lemma_lines_agree(icon, known, tabs, a0, b0);
        assert(a =~= a0.push(x));
        assert(b =~= b0.push(y));
    }
}

/// The order of choosing does not depend on the order in which the tabs are shown.
pub proof fn law_line_ignores_display_order(
    icon: Seq<char>,
    known: Map<usize, Seq<char>>,
    tabs: Seq<Tab>,
    shuffled: Seq<Tab>,
)
    requires
        distinct_ids(tabs),
        distinct_ids(shuffled),
        tabs.len() == shuffled.len(),
        forall|t: Tab| #[trigger] tabs.contains(t) <==> shuffled.contains(t),
    ensures
        line_up(icon, known, tabs) == line_up(icon, known, shuffled),
{
    lemma_line_up(icon, known, tabs);
    lemma_line_up(icon, known, shuffled);
    let a = line_up(icon, known, tabs);
    let b = line_up(icon, known, shuffled);
    assert forall|t: Tab| #[trigger] a.contains(t) <==> b.contains(t) by {
        assert(a.contains(t) <==> tabs.contains(t));
        assert(b.contains(t) <==> shuffled.contains(t));
    }
    lemma_lines_agree(icon, known, tabs, a, b);
}

} // verus!
