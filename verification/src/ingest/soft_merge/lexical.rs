//! Similarity of names: how many characters two names share, and which line of a
//! canonical text is the name.

use vstd::prelude::*;
use crate::seqs;
use crate::text;

verus! {

broadcast use vstd::string::group_string_axioms;

/// A line without the carriage return at its end.
pub open spec fn without_return(line: Seq<char>) -> Seq<char> {
    if line.len() > 0 && line.last() == '\r' {
        line.drop_last()
    } else {
        line
    }
}

/// The lines that have ended, and the one that has not.
pub open spec fn split_lines(s: Seq<char>) -> (Seq<Seq<char>>, Seq<char>)
    decreases s.len(),
{
    if s.len() == 0 {
        (Seq::empty(), Seq::empty())
    } else {
        let (done, open) = split_lines(s.drop_last());
        if s.last() == '\n' {
            (done.push(without_return(open)), Seq::empty())
        } else {
            (done, open.push(s.last()))
        }
    }
}

/// The lines of a text. The end of the last line may be missing.
pub open spec fn lines_of(s: Seq<char>) -> Seq<Seq<char>> {
    let (done, open) = split_lines(s);
    if open.len() == 0 {
        done
    } else {
        done.push(open)
    }
}

fn chomp(line: Vec<char>) -> (r: Vec<char>)
    ensures
        r@ == without_return(line@),
{
    let ghost whole = line@;
    let mut line = line;
    if line.len() > 0 && line[line.len() - 1] == '\r' {
        let _ = line.pop();
        assert(line@ =~= whole.drop_last());
    }
    line
}

/// The lines of a text.
pub fn lines(s: &str) -> (r: Vec<String>)
    ensures
        r.deep_view() == lines_of(s@),
{
    let cs = text::chars_of(s);
    let mut done: Vec<String> = seqs::no_items();
    let mut open: Vec<char> = Vec::new();
    let mut i: usize = 0;
    while i < cs.len()
        invariant
            cs@ == s@,
            0 <= i <= cs@.len(),
            done.deep_view() == split_lines(s@.take(i as int)).0,
            open@ == split_lines(s@.take(i as int)).1,
        decreases cs@.len() - i,
    {
        let c = cs[i];
        proof {
            assert(s@.take(i + 1).drop_last() =~= s@.take(i as int));
            assert(s@.take(i + 1).last() == c);
        }
        if c == '\n' {
            let line = chomp(open);
            seqs::push_item(&mut done, text::text_of(&line));
            open = Vec::new();
            assert(open@ =~= Seq::<char>::empty());
        } else {
            open.push(c);
        }
        i += 1;
    }
    assert(s@.take(i as int) =~= s@);
    if open.len() > 0 {
        seqs::push_item(&mut done, text::text_of(&open));
    }
    done
}

/// Is there anything but white space?
pub open spec fn is_blank(s: Seq<char>) -> bool {
    text::trimmed(s).len() == 0
}

/// Is there anything but white space?
pub fn blank(s: &str) -> (r: bool)
    ensures
        r == is_blank(s@),
{
    text::is_empty_text(text::trim(s).as_str())
}

/// The lines that are not blank.
pub open spec fn filled_lines(lines: Seq<Seq<char>>) -> Seq<Seq<char>>
    decreases lines.len(),
{
    if lines.len() == 0 {
        Seq::empty()
    } else {
        let before = filled_lines(lines.drop_last());
        if is_blank(lines.last()) {
            before
        } else {
            before.push(lines.last())
        }
    }
}

fn filled(lines: &Vec<String>) -> (r: Vec<String>)
    ensures
        r.deep_view() == filled_lines(lines.deep_view()),
{
    let ghost all = lines.deep_view();
    let mut out: Vec<String> = seqs::no_items();
    let mut i: usize = 0;
    while i < lines.len()
        invariant
            all == lines.deep_view(),
            0 <= i <= lines@.len(),
            out.deep_view() == filled_lines(all.take(i as int)),
        decreases lines@.len() - i,
    {
        proof {
            assert(all.take(i + 1).drop_last() =~= all.take(i as int));
            assert(all.take(i + 1).last() == lines@[i as int]@);
        }
        if !blank(lines[i].as_str()) {
            seqs::push_item(&mut out, lines[i].clone());
        }
        i += 1;
    }
    assert(all.take(i as int) =~= all);
    out
}

/// What follows the first `: `.
pub open spec fn after_colon(s: Seq<char>) -> Option<Seq<char>>
    decreases s.len(),
{
    if s.len() < 2 {
        None
    } else if s[0] == ':' && s[1] == ' ' {
        Some(s.skip(2))
    } else {
        after_colon(s.drop_first())
    }
}

fn value_of(s: &str) -> (r: Option<String>)
    ensures
        r.deep_view() == after_colon(s@),
{
    let cs = text::chars_of(s);
    let mut i: usize = 0;
    proof {
        assert(s@.skip(0) =~= s@);
    }
    while i < cs.len() && cs.len() - i >= 2
        invariant
            cs@ == s@,
            0 <= i <= cs@.len(),
            after_colon(s@) == after_colon(s@.skip(i as int)),
        decreases cs@.len() - i,
    {
        proof {
            assert(s@.skip(i as int)[0] == cs@[i as int]);
            assert(s@.skip(i as int)[1] == cs@[i + 1]);
            assert(s@.skip(i as int).skip(2) =~= s@.skip(i + 2));
            assert(s@.skip(i as int).drop_first() =~= s@.skip(i + 1));
        }
        if cs[i] == ':' && cs[i + 1] == ' ' {
            let r = text::text_range(&cs, i + 2, cs.len());
            assert(r@ =~= s@.skip(i + 2));
            return Some(r);
        }
        i += 1;
    }
    None
}

/// Starts a line with `name: `?
pub open spec fn is_name_line() -> spec_fn(Seq<char>) -> bool {
    |l: Seq<char>| text::has_prefix(l, "name: "@)
}

/// Is a line not blank?
pub open spec fn is_filled_line() -> spec_fn(Seq<char>) -> bool {
    |l: Seq<char>| !is_blank(l)
}

/// Does a line say something other than a type?
pub open spec fn is_other_line() -> spec_fn(Seq<char>) -> bool {
    |l: Seq<char>| !is_blank(l) && !text::has_prefix(l, "type:"@)
}

/// The name in a canonical text: the value of its `name:` line, else of the first
/// line that is no `type:` line. A text that does not start with its type is a name
/// itself.
pub open spec fn name_in(canonical: Seq<char>) -> Seq<char> {
    let lines = lines_of(canonical);
    match seqs::first_where(lines, is_filled_line()) {
        None => canonical,
        Some(first) => if !text::has_prefix(first, "type:"@) {
            canonical
        } else {
            match seqs::first_where(lines, is_name_line()) {
                Some(line) => line.skip("name: "@.len() as int),
                None => match seqs::first_where(lines, is_other_line()) {
                    Some(line) => match after_colon(line) {
                        Some(value) => value,
                        None => line,
                    },
                    None => first,
                },
            }
        },
    }
}

fn first_filled(lines: &Vec<String>) -> (r: Option<usize>)
    ensures
        match r {
            Some(i) => i < lines@.len() && seqs::first_where(lines.deep_view(), is_filled_line())
                == Some(lines@[i as int]@),
            None => seqs::first_where(lines.deep_view(), is_filled_line()) is None,
        },
{
    let ghost all = lines.deep_view();
    let mut i: usize = 0;
    while i < lines.len()
        invariant
            0 <= i <= lines@.len(),
            all == lines.deep_view(),
            forall|k: int| 0 <= k < i ==> !is_filled_line()(#[trigger] all[k]),
        decreases lines@.len() - i,
    {
        assert(all[i as int] == lines@[i as int]@);
        if !blank(lines[i].as_str()) {
            proof {
                seqs::first_where_at(all, is_filled_line(), i as int);
            }
            return Some(i);
        }
        i += 1;
    }
    proof {
        seqs::first_where_none(all, is_filled_line());
    }
    None
}

fn first_other(lines: &Vec<String>) -> (r: Option<usize>)
    ensures
        match r {
            Some(i) => i < lines@.len() && seqs::first_where(lines.deep_view(), is_other_line())
                == Some(lines@[i as int]@),
            None => seqs::first_where(lines.deep_view(), is_other_line()) is None,
        },
{
    let ghost all = lines.deep_view();
    let mut i: usize = 0;
    while i < lines.len()
        invariant
            0 <= i <= lines@.len(),
            all == lines.deep_view(),
            forall|k: int| 0 <= k < i ==> !is_other_line()(#[trigger] all[k]),
        decreases lines@.len() - i,
    {
        assert(all[i as int] == lines@[i as int]@);
        if !blank(lines[i].as_str()) && !text::text_starts_with(lines[i].as_str(), "type:") {
            proof {
                seqs::first_where_at(all, is_other_line(), i as int);
            }
            return Some(i);
        }
        i += 1;
    }
    proof {
        seqs::first_where_none(all, is_other_line());
    }
    None
}

fn first_name_line(lines: &Vec<String>) -> (r: Option<String>)
    ensures
        match r {
            Some(rest) => seqs::first_where(lines.deep_view(), is_name_line()) is Some && rest@
                == seqs::first_where(lines.deep_view(), is_name_line())->0.skip(
                "name: "@.len() as int,
            ),
            None => seqs::first_where(lines.deep_view(), is_name_line()) is None,
        },
{
    let ghost all = lines.deep_view();
    let mut i: usize = 0;
    while i < lines.len()
        invariant
            0 <= i <= lines@.len(),
            all == lines.deep_view(),
            forall|k: int| 0 <= k < i ==> !is_name_line()(#[trigger] all[k]),
        decreases lines@.len() - i,
    {
        assert(all[i as int] == lines@[i as int]@);
        if let Some(rest) = text::text_after(lines[i].as_str(), "name: ") {
            proof {
                seqs::first_where_at(all, is_name_line(), i as int);
            }
            return Some(rest);
        }
        i += 1;
    }
    proof {
        seqs::first_where_none(all, is_name_line());
    }
    None
}

/// The name in a canonical text.
pub fn primary_name_of(canonical: &str) -> (r: String)
    ensures
        r@ == name_in(canonical@),
{
    let list = lines(canonical);
    let first = match first_filled(&list) {
        Some(i) => i,
        None => {
            return canonical.to_owned();
        },
    };
    if !text::text_starts_with(list[first].as_str(), "type:") {
        return canonical.to_owned();
    }
    if let Some(rest) = first_name_line(&list) {
        return rest;
    }
    match first_other(&list) {
        Some(i) => match value_of(list[i].as_str()) {
            Some(value) => value,
            None => list[i].clone(),
        },
        None => list[first].clone(),
    }
}

/// A canonical text that says nothing but the type.
pub open spec fn says_type_only(canonical: Seq<char>) -> bool {
    let lines = filled_lines(lines_of(canonical));
    lines.len() == 1 && text::has_prefix(lines[0], "type: "@)
}

/// Does a canonical text say nothing but the type?
pub fn is_type_only(canonical: &str) -> (r: bool)
    ensures
        r == says_type_only(canonical@),
{
    let list = filled(&lines(canonical));
    assert(list.deep_view().len() == list@.len());
    if list.len() != 1 {
        return false;
    }
    assert(list.deep_view()[0] == list@[0]@);
    text::text_starts_with(list[0].as_str(), "type: ")
}

/// How far apart two characters may stand to count as shared.
pub open spec fn window(a: nat, b: nat) -> int {
    let half = (if a < b {
        b
    } else {
        a
    }) / 2;
    if half == 0 {
        0
    } else {
        half - 1
    }
}

/// The first place from `from` on, and before `to`, where `c` stands and is not
/// taken yet.
pub open spec fn free_place(c: char, b: Seq<char>, taken: Seq<bool>, from: int, to: int) -> Option<
    int,
>
    decreases to - from,
{
    if from >= to {
        None
    } else if !taken[from] && b[from] == c {
        Some(from)
    } else {
        free_place(c, b, taken, from + 1, to)
    }
}

/// Where the search for a partner of the character at `i` starts.
pub open spec fn reach_from(i: int, w: int) -> int {
    if i < w {
        0
    } else {
        i - w
    }
}

/// Where the search for a partner of the character at `i` ends.
pub open spec fn reach_to(i: int, w: int, b: int) -> int {
    if i + w + 1 < b {
        i + w + 1
    } else {
        b
    }
}

/// Which characters of `a`, and of `b`, are shared.
pub struct Shared {
    pub mine: Seq<bool>,
    pub theirs: Seq<bool>,
}

/// Each character of `a` takes the first free partner in its reach.
pub open spec fn shared(a: Seq<char>, b: Seq<char>, w: int) -> Shared
    decreases a.len(),
{
    if a.len() == 0 {
        Shared { mine: Seq::empty(), theirs: Seq::new(b.len(), |i: int| false) }
    } else {
        let before = shared(a.drop_last(), b, w);
        let i = a.len() - 1;
        match free_place(
            a.last(),
            b,
            before.theirs,
            reach_from(i, w),
            reach_to(i, w, b.len() as int),
        ) {
            Some(j) => Shared {
                mine: before.mine.push(true),
                theirs: before.theirs.update(j, true),
            },
            None => Shared { mine: before.mine.push(false), ..before },
        }
    }
}

/// The characters that are marked.
pub open spec fn marked(s: Seq<char>, marks: Seq<bool>) -> Seq<char>
    decreases s.len(),
{
    if s.len() == 0 {
        Seq::empty()
    } else {
        let before = marked(s.drop_last(), marks);
        if marks[s.len() - 1] {
            before.push(s.last())
        } else {
            before
        }
    }
}

/// At how many places two texts differ.
pub open spec fn differences(a: Seq<char>, b: Seq<char>) -> nat
    decreases a.len(),
{
    if a.len() == 0 || b.len() == 0 {
        0
    } else {
        differences(a.drop_last(), b.take(a.len() - 1)) + if a.len() <= b.len() && a.last()
            != b[a.len() - 1] {
            1nat
        } else {
            0nat
        }
    }
}

/// How many characters two texts have in common at their start, up to `cap`.
pub open spec fn common_start(a: Seq<char>, b: Seq<char>, cap: nat) -> nat
    decreases cap,
{
    if cap == 0 || a.len() == 0 || b.len() == 0 || a[0] != b[0] {
        0
    } else {
        1 + common_start(a.drop_first(), b.drop_first(), (cap - 1) as nat)
    }
}

/// What a similarity of two names is made of.
#[derive(Debug, Clone, Copy, PartialEq, Eq)]
pub enum Resemblance {
    /// Nothing is shared.
    Nothing,
    /// The names are the same.
    Same,
    /// Lengths, shared characters, pairs of those that are out of order, and the
    /// length of the common start up to four.
    Partly { a: usize, b: usize, shared: usize, swapped: usize, start: usize },
}

pub enum ResemblanceModel {
    Nothing,
    Same,
    Partly { a: nat, b: nat, shared: nat, swapped: nat, start: nat },
}

impl DeepView for Resemblance {
    type V = ResemblanceModel;

    open spec fn deep_view(&self) -> ResemblanceModel {
        match self {
            Resemblance::Nothing => ResemblanceModel::Nothing,
            Resemblance::Same => ResemblanceModel::Same,
            Resemblance::Partly { a, b, shared, swapped, start } => ResemblanceModel::Partly {
                a: *a as nat,
                b: *b as nat,
                shared: *shared as nat,
                swapped: *swapped as nat,
                start: *start as nat,
            },
        }
    }
}

/// What two names share.
pub open spec fn resemblance_of(a: Seq<char>, b: Seq<char>) -> ResemblanceModel {
    let s = shared(a, b, window(a.len(), b.len()));
    let mine = marked(a, s.mine);
    let theirs = marked(b, s.theirs);
    if a == b {
        if a.len() == 0 {
            ResemblanceModel::Nothing
        } else {
            ResemblanceModel::Same
        }
    } else if mine.len() == 0 {
        ResemblanceModel::Nothing
    } else {
        ResemblanceModel::Partly {
            a: a.len(),
            b: b.len(),
            shared: mine.len(),
            swapped: differences(mine, theirs) / 2,
            start: common_start(a, b, 4),
        }
    }
}

proof fn free_place_is_free(c: char, b: Seq<char>, taken: Seq<bool>, from: int, to: int)
    requires
        0 <= from,
    ensures
        match free_place(c, b, taken, from, to) {
            Some(j) => from <= j < to && !taken[j] && b[j] == c,
            None => true,
        },
    decreases to - from,
{
    if from < to && !(!taken[from] && b[from] == c) {
        free_place_is_free(c, b, taken, from + 1, to);
    }
}

pub(crate) proof fn marked_prefix(s: Seq<char>, m: Seq<bool>, n: Seq<bool>)
    requires
        s.len() <= m.len(),
        s.len() <= n.len(),
        forall|i: int| 0 <= i < s.len() ==> #[trigger] m[i] == n[i],
    ensures
        marked(s, m) == marked(s, n),
    decreases s.len(),
{
    if s.len() > 0 {
        marked_prefix(s.drop_last(), m, n);
    }
}

proof fn marked_after_set(s: Seq<char>, m: Seq<bool>, j: int)
    requires
        0 <= j < s.len(),
        s.len() == m.len(),
        !m[j],
    ensures
        marked(s, m.update(j, true)).len() == marked(s, m).len() + 1,
    decreases s.len(),
{
    let u = m.update(j, true);
    if j == s.len() - 1 {
        marked_prefix(s.drop_last(), m, u);
    } else {
        let t = s.drop_last();
        let cut = m.take(t.len() as int);
        marked_after_set(t, cut, j);
        marked_prefix(t, cut, m);
        marked_prefix(t, cut.update(j, true), u);
    }
}

proof fn marked_is_short(s: Seq<char>, m: Seq<bool>)
    ensures
        marked(s, m).len() <= s.len(),
    decreases s.len(),
{
    if s.len() > 0 {
        marked_is_short(s.drop_last(), m);
    }
}

pub(crate) proof fn none_marked(s: Seq<char>, m: Seq<bool>)
    requires
        s.len() <= m.len(),
        forall|i: int| 0 <= i < s.len() ==> !#[trigger] m[i],
    ensures
        marked(s, m).len() == 0,
    decreases s.len(),
{
    if s.len() > 0 {
        none_marked(s.drop_last(), m);
    }
}

/// Shared characters come in pairs: as many in the one name as in the other, and
/// no more than either has.
pub proof fn law_shared_characters_pair_up(a: Seq<char>, b: Seq<char>, w: int)
    requires
        0 <= w,
    ensures
        shared(a, b, w).mine.len() == a.len(),
        shared(a, b, w).theirs.len() == b.len(),
        marked(a, shared(a, b, w).mine).len() == marked(b, shared(a, b, w).theirs).len(),
        marked(a, shared(a, b, w).mine).len() <= a.len(),
        marked(b, shared(a, b, w).theirs).len() <= b.len(),
    decreases a.len(),
{
    let s = shared(a, b, w);
    marked_is_short(a, s.mine);
    marked_is_short(b, s.theirs);
    if a.len() == 0 {
        none_marked(b, s.theirs);
    } else {
        let rest = a.drop_last();
        law_shared_characters_pair_up(rest, b, w);
        let before = shared(rest, b, w);
        let i = a.len() - 1;
        free_place_is_free(
            a.last(),
            b,
            before.theirs,
            reach_from(i, w),
            reach_to(i, w, b.len() as int),
        );
        marked_prefix(rest, before.mine, s.mine);
        if let Some(j) = free_place(
            a.last(),
            b,
            before.theirs,
            reach_from(i, w),
            reach_to(i, w, b.len() as int),
        ) {
            marked_after_set(b, before.theirs, j);
        }
    }
}

proof fn differences_are_few(a: Seq<char>, b: Seq<char>)
    ensures
        differences(a, b) <= a.len(),
    decreases a.len(),
{
    if a.len() > 0 && b.len() > 0 {
        differences_are_few(a.drop_last(), b.take(a.len() - 1));
    }
}

/// The parts of a similarity are in range: no more is shared than the shorter name
/// has, at most half of it is swapped, and the common start is at most four.
pub proof fn law_resemblance_is_in_range(a: Seq<char>, b: Seq<char>)
    ensures
        match resemblance_of(a, b) {
            ResemblanceModel::Partly { a: x, b: y, shared, swapped, start } => x == a.len() && y
                == b.len() && 0 < shared <= x && shared <= y && 2 * swapped <= shared && start <= 4,
            _ => true,
        },
{
    let w = window(a.len(), b.len());
    law_shared_characters_pair_up(a, b, w);
    let s = shared(a, b, w);
    differences_are_few(marked(a, s.mine), marked(b, s.theirs));
    common_start_is_short(a, b, 4);
}

proof fn common_start_is_short(a: Seq<char>, b: Seq<char>, cap: nat)
    ensures
        common_start(a, b, cap) <= cap,
        common_start(a, b, cap) <= a.len(),
    decreases cap,
{
    if !(cap == 0 || a.len() == 0 || b.len() == 0 || a[0] != b[0]) {
        common_start_is_short(a.drop_first(), b.drop_first(), (cap - 1) as nat);
    }
}

fn find_free(
    c: char,
    b: &Vec<char>,
    taken: &Vec<bool>,
    from: usize,
    to: usize,
) -> (r: Option<usize>)
    requires
        to <= b@.len(),
        b@.len() == taken@.len(),
    ensures
        match r {
            Some(j) => j < to && free_place(c, b@, taken@, from as int, to as int) == Some(
                j as int,
            ),
            None => free_place(c, b@, taken@, from as int, to as int) is None,
        },
{
    let mut j: usize = from;
    while j < to
        invariant
            to <= b@.len(),
            b@.len() == taken@.len(),
            from <= j,
            free_place(c, b@, taken@, from as int, to as int) == free_place(
                c,
                b@,
                taken@,
                j as int,
                to as int,
            ),
        decreases to - j,
    {
        if !taken[j] && b[j] == c {
            return Some(j);
        }
        j += 1;
    }
    None
}

fn pick_marked(s: &Vec<char>, marks: &Vec<bool>) -> (r: Vec<char>)
    requires
        s@.len() == marks@.len(),
    ensures
        r@ == marked(s@, marks@),
{
    let mut out: Vec<char> = Vec::new();
    let mut i: usize = 0;
    assert(s@.take(0) =~= Seq::<char>::empty());
    while i < s.len()
        invariant
            s@.len() == marks@.len(),
            0 <= i <= s@.len(),
            out@ == marked(s@.take(i as int), marks@),
        decreases s@.len() - i,
    {
        proof {
            assert(s@.take(i + 1).drop_last() =~= s@.take(i as int));
            assert(s@.take(i + 1).last() == s@[i as int]);
        }
        if marks[i] {
            out.push(s[i]);
        }
        i += 1;
    }
    assert(s@.take(i as int) =~= s@);
    out
}

fn count_differences(a: &Vec<char>, b: &Vec<char>) -> (r: usize)
    requires
        a@.len() == b@.len(),
    ensures
        r == differences(a@, b@),
{
    let mut n: usize = 0;
    let mut i: usize = 0;
    while i < a.len()
        invariant
            a@.len() == b@.len(),
            0 <= i <= a@.len(),
            n <= i,
            n == differences(a@.take(i as int), b@.take(i as int)),
        decreases a@.len() - i,
    {
        proof {
            assert(a@.take(i + 1).drop_last() =~= a@.take(i as int));
            assert(b@.take(i + 1).take(i as int) =~= b@.take(i as int));
            assert(a@.take(i + 1).last() == a@[i as int]);
            assert(b@.take(i + 1)[i as int] == b@[i as int]);
        }
        if a[i] != b[i] {
            n += 1;
        }
        i += 1;
    }
    assert(a@.take(i as int) =~= a@);
    assert(b@.take(i as int) =~= b@);
    n
}

fn count_common_start(a: &Vec<char>, b: &Vec<char>) -> (r: usize)
    ensures
        r == common_start(a@, b@, 4),
{
    let mut i: usize = 0;
    assert(a@.skip(0) =~= a@);
    assert(b@.skip(0) =~= b@);
    while i < 4 && i < a.len() && i < b.len() && a[i] == b[i]
        invariant
            0 <= i <= 4,
            i <= a@.len(),
            i <= b@.len(),
            common_start(a@, b@, 4) == i + common_start(
                a@.skip(i as int),
                b@.skip(i as int),
                (4 - i) as nat,
            ),
        decreases 4 - i,
    {
        proof {
            assert(a@.skip(i as int)[0] == a@[i as int]);
            assert(b@.skip(i as int)[0] == b@[i as int]);
            assert(a@.skip(i as int).drop_first() =~= a@.skip(i + 1));
            assert(b@.skip(i as int).drop_first() =~= b@.skip(i + 1));
        }
        i += 1;
    }
    proof {
        if i < 4 && i < a@.len() && i < b@.len() {
            assert(a@.skip(i as int)[0] == a@[i as int]);
            assert(b@.skip(i as int)[0] == b@[i as int]);
        }
    }
    i
}

/// What two names share, character by character. The similarity of Jaro and
/// Winkler is a quotient of these counts.
pub fn resemblance(a: &str, b: &str) -> (r: Resemblance)
    ensures
        r.deep_view() == resemblance_of(a@, b@),
{
    let xs = text::chars_of(a);
    let ys = text::chars_of(b);
    if text::text_eq(a, b) {
        return if xs.len() == 0 {
            Resemblance::Nothing
        } else {
            Resemblance::Same
        };
    }
    let longer = if xs.len() < ys.len() {
        ys.len()
    } else {
        xs.len()
    };
    let half = longer / 2;
    let w: usize = if half == 0 {
        0
    } else {
        half - 1
    };
    let ghost wide = window(a@.len(), b@.len());
    assert(w == wide);
    let mut theirs: Vec<bool> = Vec::new();
    let mut i: usize = 0;
    while i < ys.len()
        invariant
            0 <= i <= ys@.len(),
            theirs@ == Seq::new(i as nat, |k: int| false),
        decreases ys@.len() - i,
    {
        theirs.push(false);
        i += 1;
        assert(theirs@ =~= Seq::new(i as nat, |k: int| false));
    }
    let mut mine: Vec<bool> = Vec::new();
    proof {
        assert(xs@.take(0) =~= Seq::<char>::empty());
        assert(mine@ =~= shared(xs@.take(0), ys@, w as int).mine);
        assert(theirs@ =~= shared(xs@.take(0), ys@, w as int).theirs);
    }
    let mut i: usize = 0;
    while i < xs.len()
        invariant
            0 <= i <= xs@.len(),
            theirs@.len() == ys@.len(),
            w < usize::MAX,
            mine@ == shared(xs@.take(i as int), ys@, w as int).mine,
            theirs@ == shared(xs@.take(i as int), ys@, w as int).theirs,
        decreases xs@.len() - i,
    {
        proof {
            assert(xs@.take(i + 1).drop_last() =~= xs@.take(i as int));
            assert(xs@.take(i + 1).last() == xs@[i as int]);
        }
        let from: usize = if i < w {
            0
        } else {
            i - w
        };
        let to: usize = if i >= ys.len() || ys.len() - i <= w + 1 {
            ys.len()
        } else {
            i + w + 1
        };
        assert(from == reach_from(i as int, w as int));
        assert(to == reach_to(i as int, w as int, ys@.len() as int));
        match find_free(xs[i], &ys, &theirs, from, to) {
            Some(j) => {
                mine.push(true);
                theirs.set(j, true);
            },
            None => {
                mine.push(false);
            },
        }
        i += 1;
    }
    proof {
        assert(xs@.take(i as int) =~= xs@);
        law_shared_characters_pair_up(xs@, ys@, w as int);
    }
    let m = pick_marked(&xs, &mine);
    let t = pick_marked(&ys, &theirs);
    if m.len() == 0 {
        return Resemblance::Nothing;
    }
    Resemblance::Partly {
        a: xs.len(),
        b: ys.len(),
        shared: m.len(),
        swapped: count_differences(&m, &t) / 2,
        start: count_common_start(&xs, &ys),
    }
}

/// What the names in two canonical texts share, whatever their case.
pub open spec fn name_resemblance(incoming: Seq<char>, known: Seq<char>) -> ResemblanceModel {
    resemblance_of(text::lowercase(name_in(incoming)), text::lowercase(name_in(known)))
}

/// What the names in two canonical texts share, whatever their case.
pub fn lexical_resemblance(incoming: &str, known: &str) -> (r: Resemblance)
    ensures
        r.deep_view() == name_resemblance(incoming@, known@),
{
    let a = text::to_lowercase(primary_name_of(incoming).as_str());
    let b = text::to_lowercase(primary_name_of(known).as_str());
    resemblance(a.as_str(), b.as_str())
}

} // verus!
