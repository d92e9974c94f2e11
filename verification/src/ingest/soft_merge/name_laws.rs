//! What the name in a canonical text is: the value of the property that holds it.

use vstd::prelude::*;
use crate::graph::canonical;
use crate::ingest::soft_merge::lexical;
use crate::json::JsonModel;
use crate::seqs;
use crate::text;

verus! {

broadcast use vstd::string::group_string_axioms;

/// Is a text one line, without a line break of either kind?
pub open spec fn is_one_line(s: Seq<char>) -> bool {
    forall|i: int| 0 <= i < s.len() ==> #[trigger] s[i] != '\n' && s[i] != '\r'
}

/// Is there no colon in a text?
pub open spec fn has_no_colon(s: Seq<char>) -> bool {
    forall|i: int| 0 <= i < s.len() ==> #[trigger] s[i] != ':'
}

/// A type and properties that each take one line, under names without a colon.
pub open spec fn takes_lines(kind: Seq<char>, props: Seq<(Seq<char>, JsonModel)>) -> bool {
    &&& is_one_line(kind)
    &&& forall|i: int|
        0 <= i < props.len() ==> is_one_line((#[trigger] props[i]).0) && has_no_colon(props[i].0)
            && is_one_line(canonical::plain_text(props[i].1))
}

/// A line of a canonical text: the type first, then the properties.
pub open spec fn line_of(
    kind: Seq<char>,
    props: Seq<(Seq<char>, JsonModel)>,
    i: int,
) -> Seq<char> {
    if i == 0 {
        "type: "@ + kind
    } else {
        props[i - 1].0 + ": "@ + canonical::plain_text(props[i - 1].1)
    }
}

proof fn split_grows(s: Seq<char>, t: Seq<char>)
    requires
        is_one_line(t),
    ensures
        lexical::split_lines(s + t) == (lexical::split_lines(s).0, lexical::split_lines(s).1 + t),
    decreases t.len(),
{
    if t.len() == 0 {
        assert(s + t =~= s);
        assert(lexical::split_lines(s).1 + t =~= lexical::split_lines(s).1);
    } else {
        let u = t.drop_last();
        assert forall|i: int| 0 <= i < u.len() implies #[trigger] u[i] != '\n' && u[i] != '\r' by {
            assert(u[i] == t[i]);
        }
        split_grows(s, u);
        assert((s + t).drop_last() =~= s + u);
        assert((s + t).last() == t.last());
        assert(t[t.len() - 1] != '\n');
        assert(lexical::split_lines(s).1 + t =~= (lexical::split_lines(s).1 + u).push(t.last()));
    }
}

proof fn lines_join(a: Seq<char>, b: Seq<char>)
    requires
        is_one_line(a),
        is_one_line(b),
    ensures
        is_one_line(a + b),
{
    assert forall|i: int| 0 <= i < (a + b).len() implies #[trigger] (a + b)[i] != '\n' && (a
        + b)[i] != '\r' by {
        if i < a.len() {
            assert((a + b)[i] == a[i]);
        } else {
            assert((a + b)[i] == b[i - a.len()]);
        }
    }
}

proof fn each_is_one_line(kind: Seq<char>, props: Seq<(Seq<char>, JsonModel)>, i: int)
    requires
        takes_lines(kind, props),
        0 <= i <= props.len(),
    ensures
        is_one_line(line_of(kind, props, i)),
        line_of(kind, props, i).len() > 0,
{
    reveal_strlit("type: ");
    reveal_strlit(": ");
    if i == 0 {
        lines_join("type: "@, kind);
    } else {
        let p = props[i - 1];
        lines_join(p.0, ": "@);
        lines_join(p.0 + ": "@, canonical::plain_text(p.1));
    }
}

proof fn canonical_text_splits(kind: Seq<char>, props: Seq<(Seq<char>, JsonModel)>)
    requires
        takes_lines(kind, props),
    ensures
        lexical::split_lines(canonical::canonical_text(kind, props)).0 == Seq::new(
            props.len(),
            |i: int| line_of(kind, props, i),
        ),
        lexical::split_lines(canonical::canonical_text(kind, props)).1 == line_of(
            kind,
            props,
            props.len() as int,
        ),
    decreases props.len(),
{
    let whole = canonical::canonical_text(kind, props);
    each_is_one_line(kind, props, props.len() as int);
    let n = props.len() as int;
    if n == 0 {
        let e = Seq::<char>::empty();
        assert(lexical::split_lines(e) == (Seq::<Seq<char>>::empty(), e));
        split_grows(e, "type: "@ + kind);
        assert(e + ("type: "@ + kind) =~= whole);
        assert(Seq::<Seq<char>>::empty() =~= Seq::new(0, |i: int| line_of(kind, props, i)));
    } else {
        let rest = props.drop_last();
        assert(takes_lines(kind, rest)) by {
            assert forall|i: int| 0 <= i < rest.len() implies is_one_line((#[trigger] rest[i]).0)
                && has_no_colon(rest[i].0) && is_one_line(canonical::plain_text(rest[i].1)) by {
                assert(rest[i] == props[i]);
            }
        }
        canonical_text_splits(kind, rest);
        let before = canonical::canonical_text(kind, rest);
        let line = line_of(kind, props, n);
        reveal_strlit("\n");
        let ended = before + "\n"@;
        assert(ended.drop_last() =~= before);
        assert(ended.last() == '\n');
        let open = line_of(kind, rest, n - 1);
        each_is_one_line(kind, rest, n - 1);
        assert(open.last() == open[open.len() - 1]);
        assert(lexical::without_return(open) == open);
        split_grows(ended, line);
        assert(ended + line =~= whole);
        assert(Seq::<char>::empty() + line =~= line);
        assert forall|i: int| 0 <= i < n implies line_of(kind, rest, i) == #[trigger] line_of(
            kind,
            props,
            i,
        ) by {
            if i > 0 {
                assert(rest[i - 1] == props[i - 1]);
            }
        }
        assert(Seq::new(rest.len(), |i: int| line_of(kind, rest, i)).push(open) =~= Seq::new(
            props.len(),
            |i: int| line_of(kind, props, i),
        ));
    }
}

/// A canonical text is one line for the type, and one for each property in its order, with its
/// name and its value.
pub proof fn law_canonical_lines(kind: Seq<char>, props: Seq<(Seq<char>, JsonModel)>)
    requires
        takes_lines(kind, props),
    ensures
        ({
            let lines = lexical::lines_of(canonical::canonical_text(kind, props));
            &&& lines.len() == props.len() + 1
            &&& lines[0] == "type: "@ + kind
            &&& forall|i: int|
                0 <= i < props.len() ==> lines[i + 1] == (#[trigger] props[i]).0 + ": "@
                    + canonical::plain_text(props[i].1)
        }),
{
    canonical_text_splits(kind, props);
    each_is_one_line(kind, props, props.len() as int);
    let lines = lexical::lines_of(canonical::canonical_text(kind, props));
    assert forall|i: int| 0 <= i <= props.len() implies #[trigger] lines[i] == line_of(
        kind,
        props,
        i,
    ) by {}
    assert(lines[0] == line_of(kind, props, 0));
    assert forall|i: int| 0 <= i < props.len() implies lines[i + 1] == (#[trigger] props[i]).0
        + ": "@ + canonical::plain_text(props[i].1) by {
        assert(lines[i + 1] == line_of(kind, props, i + 1));
    }
}

proof fn trimming_keeps_ink(s: Seq<char>, i: int)
    requires
        0 <= i < s.len(),
        !text::is_white(s[i]),
    ensures
        text::trimmed(s).len() > 0,
    decreases s.len(),
{
    if text::is_white(s[0]) {
        assert(s.drop_first()[i - 1] == s[i]);
        trimming_keeps_ink(s.drop_first(), i - 1);
    } else {
        trimming_back_keeps_ink(s, i);
    }
}

proof fn trimming_back_keeps_ink(s: Seq<char>, i: int)
    requires
        0 <= i < s.len(),
        !text::is_white(s[i]),
    ensures
        text::trimmed_back(s).len() > 0,
    decreases s.len(),
{
    if text::is_white(s.last()) {
        assert(s.drop_last()[i] == s[i]);
        trimming_back_keeps_ink(s.drop_last(), i);
    }
}

proof fn value_follows_the_colon(name: Seq<char>, value: Seq<char>)
    requires
        has_no_colon(name),
    ensures
        lexical::after_colon(name + ": "@ + value) == Some(value),
    decreases name.len(),
{
    reveal_strlit(": ");
    let s = name + ": "@ + value;
    if name.len() == 0 {
        assert(s[0] == ':' && s[1] == ' ');
        assert(s.skip(2) =~= value);
    } else {
        let rest = name.drop_first();
        assert(name[0] != ':');
        assert(s[0] == name[0]);
        assert forall|i: int| 0 <= i < rest.len() implies #[trigger] rest[i] != ':' by {
            assert(rest[i] == name[i + 1]);
        }
        value_follows_the_colon(rest, value);
        assert(s.drop_first() =~= rest + ": "@ + value);
    }
}

proof fn type_line_is_known(kind: Seq<char>)
    ensures
        !lexical::is_blank("type: "@ + kind),
        text::has_prefix("type: "@ + kind, "type:"@),
        text::has_prefix("type: "@ + kind, "type: "@),
        !text::has_prefix("type: "@ + kind, "name: "@),
{
    reveal_strlit("type: ");
    reveal_strlit("type:");
    reveal_strlit("name: ");
    let s = "type: "@ + kind;
    assert(s[0] == 't');
    trimming_keeps_ink(s, 0);
    assert(s.subrange(0, 5) =~= "type:"@);
    assert(s.subrange(0, 6) =~= "type: "@);
    assert(s.subrange(0, 6)[0] == 't');
    assert("name: "@[0] == 'n');
}

proof fn property_line_is_known(name: Seq<char>, value: Seq<char>)
    requires
        has_no_colon(name),
    ensures
        !lexical::is_blank(name + ": "@ + value),
        text::has_prefix(name + ": "@ + value, "type:"@) <==> name == "type"@,
        text::has_prefix(name + ": "@ + value, "name: "@) <==> name == "name"@,
{
    reveal_strlit(": ");
    reveal_strlit("type:");
    reveal_strlit("type");
    reveal_strlit("name: ");
    reveal_strlit("name");
    let s = name + ": "@ + value;
    let n = name.len() as int;
    assert(s[n] == ':');
    trimming_keeps_ink(s, n);
    assert forall|i: int| 0 <= i < n implies #[trigger] s[i] == name[i] && s[i] != ':' by {
        assert(name[i] != ':');
    }
    if text::has_prefix(s, "type:"@) {
        let p = s.subrange(0, 5);
        assert(p == "type:"@);
        assert(p[4] == s[4]);
        assert("type:"@[4] == ':');
        assert(n == 4) by {
            if n < 4 {
                assert(p[n] == s[n]);
            }
        }
        assert(name =~= "type"@) by {
            assert(p[0] == s[0] && p[1] == s[1] && p[2] == s[2] && p[3] == s[3]);
        }
    }
    if name == "type"@ {
        assert(s.subrange(0, 5) =~= "type:"@);
    }
    if text::has_prefix(s, "name: "@) {
        let p = s.subrange(0, 6);
        assert(p == "name: "@);
        assert(p[4] == s[4]);
        assert(n == 4) by {
            if n < 4 {
                assert(p[n] == s[n]);
            }
        }
        assert(name =~= "name"@) by {
            assert(p[0] == s[0] && p[1] == s[1] && p[2] == s[2] && p[3] == s[3]);
        }
    }
    if name == "name"@ {
        assert(s.subrange(0, 6) =~= "name: "@);
    }
}

/// The name in the canonical text of an entity is the value of its property `name`.
pub proof fn law_names_are_found(kind: Seq<char>, props: Seq<(Seq<char>, JsonModel)>, j: int)
    requires
        takes_lines(kind, props),
        0 <= j < props.len(),
        props[j].0 == "name"@,
        forall|i: int| 0 <= i < j ==> (#[trigger] props[i]).0 != "name"@,
    ensures
        lexical::name_in(canonical::canonical_text(kind, props)) == canonical::plain_text(
            props[j].1,
        ),
{
    law_canonical_lines(kind, props);
    let lines = lexical::lines_of(canonical::canonical_text(kind, props));
    type_line_is_known(kind);
    seqs::first_where_at(lines, lexical::is_filled_line(), 0);
    let value = canonical::plain_text(props[j].1);
    let line = lines[j + 1];
    assert(line == props[j].0 + ": "@ + value);
    property_line_is_known(props[j].0, value);
    assert forall|i: int| 0 <= i < j + 1 implies !lexical::is_name_line()(#[trigger] lines[i]) by {
        if i > 0 {
            let p = props[i - 1];
            assert(lines[i - 1 + 1] == p.0 + ": "@ + canonical::plain_text(p.1));
            property_line_is_known(p.0, canonical::plain_text(p.1));
        }
    }
    seqs::first_where_at(lines, lexical::is_name_line(), j + 1);
    reveal_strlit("name: ");
    reveal_strlit("name");
    reveal_strlit(": ");
    assert(line.skip(6) =~= value);
}

/// Where an entity has no property `name`, the value of its first property stands for the
/// name; where it has no property at all, the line of its type does.
pub proof fn law_first_values_stand_for_names(kind: Seq<char>, props: Seq<(Seq<char>, JsonModel)>)
    requires
        takes_lines(kind, props),
        forall|i: int|
            0 <= i < props.len() ==> (#[trigger] props[i]).0 != "name"@ && props[i].0 != "type"@,
    ensures
        props.len() > 0 ==> lexical::name_in(canonical::canonical_text(kind, props))
            == canonical::plain_text(props[0].1),
        props.len() == 0 ==> lexical::name_in(canonical::canonical_text(kind, props)) == "type: "@
            + kind,
{
    law_canonical_lines(kind, props);
    let lines = lexical::lines_of(canonical::canonical_text(kind, props));
    type_line_is_known(kind);
    seqs::first_where_at(lines, lexical::is_filled_line(), 0);
    assert forall|i: int| 0 <= i < lines.len() implies !lexical::is_name_line()(
        #[trigger] lines[i],
    ) by {
        if i > 0 {
            let p = props[i - 1];
            assert(lines[i - 1 + 1] == p.0 + ": "@ + canonical::plain_text(p.1));
            property_line_is_known(p.0, canonical::plain_text(p.1));
        }
    }
    seqs::first_where_none(lines, lexical::is_name_line());
    if props.len() > 0 {
        let p = props[0];
        assert(lines[1] == p.0 + ": "@ + canonical::plain_text(p.1));
        property_line_is_known(p.0, canonical::plain_text(p.1));
        seqs::first_where_at(lines, lexical::is_other_line(), 1);
        value_follows_the_colon(p.0, canonical::plain_text(p.1));
    } else {
        seqs::first_where_none(lines, lexical::is_other_line());
    }
}

proof fn some_lines_are_filled(lines: Seq<Seq<char>>)
    requires
        forall|i: int| 0 <= i < lines.len() ==> !lexical::is_blank(#[trigger] lines[i]),
    ensures
        lexical::filled_lines(lines) == lines,
    decreases lines.len(),
{
    if lines.len() > 0 {
        let rest = lines.drop_last();
        assert forall|i: int| 0 <= i < rest.len() implies !lexical::is_blank(
            #[trigger] rest[i],
        ) by {
            assert(rest[i] == lines[i]);
        }
        some_lines_are_filled(rest);
        assert(!lexical::is_blank(lines[lines.len() - 1]));
        assert(rest.push(lines.last()) =~= lines);
    }
}

/// A canonical text says nothing but the type exactly when there is no property.
pub proof fn law_type_only_means_no_properties(
    kind: Seq<char>,
    props: Seq<(Seq<char>, JsonModel)>,
)
    requires
        takes_lines(kind, props),
    ensures
        lexical::says_type_only(canonical::canonical_text(kind, props)) <==> props.len() == 0,
{
    law_canonical_lines(kind, props);
    let lines = lexical::lines_of(canonical::canonical_text(kind, props));
    type_line_is_known(kind);
    assert forall|i: int| 0 <= i < lines.len() implies !lexical::is_blank(#[trigger] lines[i]) by {
        if i > 0 {
            let p = props[i - 1];
            assert(lines[i - 1 + 1] == p.0 + ": "@ + canonical::plain_text(p.1));
            property_line_is_known(p.0, canonical::plain_text(p.1));
        }
    }
    some_lines_are_filled(lines);
}

/// A text of one line that does not start with a type is a name itself.
pub proof fn law_plain_names_are_kept(name: Seq<char>)
    requires
        is_one_line(name),
        !text::has_prefix(name, "type:"@),
    ensures
        lexical::name_in(name) == name,
{
    let e = Seq::<char>::empty();
    assert(lexical::split_lines(e) == (Seq::<Seq<char>>::empty(), e));
    split_grows(e, name);
    assert(e + name =~= name);
    let lines = lexical::lines_of(name);
    if name.len() > 0 {
        assert(lines.len() == 1 && lines[0] == name);
        if lexical::is_blank(name) {
            seqs::first_where_none(lines, lexical::is_filled_line());
        } else {
            seqs::first_where_at(lines, lexical::is_filled_line(), 0);
        }
    } else {
        seqs::first_where_none(lines, lexical::is_filled_line());
    }
}

/// Two names that are the same resemble each other in full, and only those do; names without
/// a character in common do not resemble each other at all.
pub proof fn law_only_same_names_are_the_same(a: Seq<char>, b: Seq<char>)
    ensures
        lexical::resemblance_of(a, b) is Same <==> a == b && a.len() > 0,
        (forall|i: int, j: int|
            0 <= i < a.len() && 0 <= j < b.len() ==> #[trigger] a[i] != #[trigger] b[j])
            ==> lexical::resemblance_of(a, b) is Nothing,
        a.len() == b.len() && a.len() > 0 && a[0] == b[0] ==> !(lexical::resemblance_of(a, b)
            is Nothing),
{
    if forall|i: int, j: int|
        0 <= i < a.len() && 0 <= j < b.len() ==> #[trigger] a[i] != #[trigger] b[j] {
        if a == b && a.len() > 0 {
            assert(a[0] != b[0]);
        }
        nothing_is_shared(a, b, lexical::window(a.len(), b.len()));
    }
    if a.len() == b.len() && a.len() > 0 && a[0] == b[0] {
        first_is_shared(a, b, lexical::window(a.len(), b.len()));
    }
}

proof fn no_free_place(c: char, b: Seq<char>, taken: Seq<bool>, from: int, to: int)
    requires
        0 <= from,
        to <= b.len(),
        forall|j: int| 0 <= j < b.len() ==> #[trigger] b[j] != c,
    ensures
        lexical::free_place(c, b, taken, from, to) is None,
    decreases to - from,
{
    if from < to {
        assert(b[from] != c);
        no_free_place(c, b, taken, from + 1, to);
    }
}

proof fn nothing_is_shared(a: Seq<char>, b: Seq<char>, w: int)
    requires
        forall|i: int, j: int|
            0 <= i < a.len() && 0 <= j < b.len() ==> #[trigger] a[i] != #[trigger] b[j],
        0 <= w,
    ensures
        lexical::shared(a, b, w).mine.len() == a.len(),
        forall|i: int| 0 <= i < a.len() ==> !#[trigger] lexical::shared(a, b, w).mine[i],
        lexical::marked(a, lexical::shared(a, b, w).mine).len() == 0,
    decreases a.len(),
{
    if a.len() > 0 {
        let rest = a.drop_last();
        assert forall|i: int, j: int| 0 <= i < rest.len() && 0 <= j < b.len() implies #[trigger] rest[i]
            != #[trigger] b[j] by {
            assert(rest[i] == a[i]);
        }
        nothing_is_shared(rest, b, w);
        let i = a.len() - 1;
        assert forall|j: int| 0 <= j < b.len() implies #[trigger] b[j] != a.last() by {
            assert(a[i] != b[j]);
        }
        no_free_place(
            a.last(),
            b,
            lexical::shared(rest, b, w).theirs,
            lexical::reach_from(i, w),
            lexical::reach_to(i, w, b.len() as int),
        );
    }
    lexical::none_marked(a, lexical::shared(a, b, w).mine);
}

proof fn first_is_shared(a: Seq<char>, b: Seq<char>, w: int)
    requires
        a.len() > 0,
        b.len() > 0,
        a[0] == b[0],
        0 <= w,
    ensures
        lexical::shared(a, b, w).mine.len() == a.len(),
        lexical::shared(a, b, w).mine[0],
        lexical::marked(a, lexical::shared(a, b, w).mine).len() > 0,
    decreases a.len(),
{
    let s = lexical::shared(a, b, w);
    if a.len() == 1 {
        let rest = a.drop_last();
        let before = lexical::shared(rest, b, w);
        assert(rest.len() == 0);
        assert(before.mine.len() == 0);
        assert(!before.theirs[0]);
        assert(lexical::reach_from(0, w) == 0);
        assert(lexical::reach_to(0, w, b.len() as int) >= 1);
        assert(lexical::free_place(
            a.last(),
            b,
            before.theirs,
            0,
            lexical::reach_to(0, w, b.len() as int),
        ) == Some(0int));
        assert(s.mine[0]);
        assert(lexical::marked(rest, s.mine).len() == 0);
        assert(s.mine[a.len() - 1]);
    } else {
        let rest = a.drop_last();
        first_is_shared(rest, b, w);
        assert(s.mine[0] == lexical::shared(rest, b, w).mine[0]);
        lexical::marked_prefix(rest, lexical::shared(rest, b, w).mine, s.mine);
    }
}

proof fn starts_are_common(a: Seq<char>, b: Seq<char>, cap: nat)
    ensures
        ({
            let n = lexical::common_start(a, b, cap) as int;
            &&& n <= cap && n <= a.len() && n <= b.len()
            &&& forall|i: int| 0 <= i < n ==> #[trigger] a[i] == b[i]
            &&& n < cap && n < a.len() && n < b.len() ==> a[n] != b[n]
        }),
    decreases cap,
{
    if !(cap == 0 || a.len() == 0 || b.len() == 0 || a[0] != b[0]) {
        let p = a.drop_first();
        let q = b.drop_first();
        starts_are_common(p, q, (cap - 1) as nat);
        let n = lexical::common_start(a, b, cap) as int;
        assert forall|i: int| 0 <= i < n implies #[trigger] a[i] == b[i] by {
            if i > 0 {
                assert(p[i - 1] == q[i - 1]);
            }
        }
        if n < cap && n < a.len() && n < b.len() {
            assert(p[n - 1] == a[n] && q[n - 1] == b[n]);
        }
    }
}

/// The common start of two names is as long as they agree from their first character on, up to four
/// characters.
pub proof fn law_common_starts_are_counted(a: Seq<char>, b: Seq<char>)
    ensures
        match lexical::resemblance_of(a, b) {
            lexical::ResemblanceModel::Partly { start, .. } => {
                &&& start <= 4 && start <= a.len() && start <= b.len()
                &&& a.take(start as int) == b.take(start as int)
                &&& start < 4 && start < a.len() && start < b.len() ==> a[start as int]
                    != b[start as int]
            },
            _ => true,
        },
{
    starts_are_common(a, b, 4);
    let n = lexical::common_start(a, b, 4) as int;
    assert(a.take(n) =~= b.take(n));
}

/// May two characters at these places be shared: are they less than half the longer name apart?
pub open spec fn is_near(a: Seq<char>, b: Seq<char>, i: int, j: int) -> bool {
    let longer = if a.len() < b.len() {
        b.len() as int
    } else {
        a.len() as int
    };
    i == j || (2 * (i - j + 1) <= longer && 2 * (j - i + 1) <= longer)
}

/// Has the character at a place a taken partner in reach?
pub open spec fn has_partner(
    a: Seq<char>,
    b: Seq<char>,
    theirs: Seq<bool>,
    w: int,
    i: int,
) -> bool {
    exists|j: int|
        0 <= j < b.len() && i - w <= j <= i + w && b[j] == a[i] && #[trigger] theirs[j]
}

proof fn places_are_tried(c: char, b: Seq<char>, taken: Seq<bool>, from: int, to: int)
    requires
        0 <= from,
    ensures
        match lexical::free_place(c, b, taken, from, to) {
            Some(j) => from <= j < to && !taken[j] && b[j] == c,
            None => forall|j: int| from <= j < to && #[trigger] b[j] == c ==> taken[j],
        },
    decreases to - from,
{
    if from < to && !(!taken[from] && b[from] == c) {
        places_are_tried(c, b, taken, from + 1, to);
    }
}

proof fn partners_are_found(a: Seq<char>, b: Seq<char>, w: int)
    requires
        0 <= w,
    ensures
        ({
            let s = lexical::shared(a, b, w);
            &&& s.mine.len() == a.len()
            &&& s.theirs.len() == b.len()
            &&& forall|i: int|
                0 <= i < a.len() && #[trigger] s.mine[i] ==> has_partner(a, b, s.theirs, w, i)
            &&& forall|i: int, j: int|
                0 <= i < a.len() && !(#[trigger] s.mine[i]) && 0 <= j < b.len() && i - w <= j <= i + w
                    && b[j] == a[i] ==> #[trigger] s.theirs[j]
        }),
    decreases a.len(),
{
    if a.len() > 0 {
        let rest = a.drop_last();
        partners_are_found(rest, b, w);
        let before = lexical::shared(rest, b, w);
        let s = lexical::shared(a, b, w);
        let n = a.len() - 1;
        let from = lexical::reach_from(n, w);
        let to = lexical::reach_to(n, w, b.len() as int);
        places_are_tried(a.last(), b, before.theirs, from, to);
        assert forall|j: int| 0 <= j < b.len() && before.theirs[j] implies #[trigger] s.theirs[j] by {}
        assert forall|i: int| 0 <= i < a.len() && #[trigger] s.mine[i] implies has_partner(
            a,
            b,
            s.theirs,
            w,
            i,
        ) by {
            if i < n {
                assert(before.mine[i]);
                assert(has_partner(rest, b, before.theirs, w, i));
                let j = choose|j: int|
                    0 <= j < b.len() && i - w <= j <= i + w && b[j] == rest[i]
                        && #[trigger] before.theirs[j];
                assert(s.theirs[j]);
            } else {
                let j = lexical::free_place(a.last(), b, before.theirs, from, to)->0;
                assert(s.theirs[j]);
            }
        }
        assert forall|i: int, j: int|
            0 <= i < a.len() && !(#[trigger] s.mine[i]) && 0 <= j < b.len() && i - w <= j <= i + w
                && b[j] == a[i] implies #[trigger] s.theirs[j] by {
            if i < n {
                assert(!before.mine[i]);
                assert(rest[i] == a[i]);
                assert(before.theirs[j]);
            } else {
                assert(from <= j < to);
            }
        }
    }
}

/// A character is shared where the other name has it less than half the longer name away, and there
/// it is shared too; one that is not shared has no such partner left.
pub proof fn law_shared_characters_are_near(a: Seq<char>, b: Seq<char>, i: int)
    requires
        0 <= i < a.len(),
    ensures
        ({
            let s = lexical::shared(a, b, lexical::window(a.len(), b.len()));
            &&& s.mine[i] ==> exists|j: int|
                0 <= j < b.len() && is_near(a, b, i, j) && b[j] == a[i] && #[trigger] s.theirs[j]
            &&& !s.mine[i] ==> forall|j: int|
                0 <= j < b.len() && is_near(a, b, i, j) && b[j] == a[i] ==> #[trigger] s.theirs[j]
        }),
{
    let w = lexical::window(a.len(), b.len());
    let s = lexical::shared(a, b, w);
    partners_are_found(a, b, w);
    if s.mine[i] {
        assert(has_partner(a, b, s.theirs, w, i));
        let j = choose|j: int|
            0 <= j < b.len() && i - w <= j <= i + w && b[j] == a[i] && #[trigger] s.theirs[j];
        assert(is_near(a, b, i, j));
    } else {
        assert forall|j: int|
            0 <= j < b.len() && is_near(a, b, i, j) && b[j] == a[i] implies #[trigger] s.theirs[j] by {
            assert(i - w <= j <= i + w);
        }
    }
}

/// Differences are counted place by place.
pub proof fn law_differences_are_counted(a: Seq<char>, b: Seq<char>, x: char, y: char)
    requires
        a.len() == b.len(),
    ensures
        lexical::differences(Seq::empty(), b) == 0,
        lexical::differences(a.push(x), b.push(y)) == lexical::differences(a, b) + (if x == y {
            0nat
        } else {
            1nat
        }),
        lexical::differences(a, a) == 0,
    decreases a.len(),
{
    let p = a.push(x);
    let q = b.push(y);
    assert(p.drop_last() =~= a);
    assert(q.take(p.len() - 1) =~= b);
    if a.len() > 0 {
        law_differences_are_counted(a.drop_last(), a.drop_last(), a.last(), a.last());
        assert(a.drop_last().push(a.last()) =~= a);
    }
}

/// What two names share is told of those characters that are shared, and half the places where they
/// come in another order counts as swapped.
pub proof fn law_resemblance_tells_what_is_shared(a: Seq<char>, b: Seq<char>)
    ensures
        match lexical::resemblance_of(a, b) {
            lexical::ResemblanceModel::Partly { a: x, b: y, shared, swapped, start: _ } => {
                let s = lexical::shared(a, b, lexical::window(a.len(), b.len()));
                let mine = lexical::marked(a, s.mine);
                let theirs = lexical::marked(b, s.theirs);
                &&& x == a.len() && y == b.len()
                &&& shared == mine.len() && shared == theirs.len()
                &&& 2 * swapped <= lexical::differences(mine, theirs) <= 2 * swapped + 1
                &&& mine == theirs ==> swapped == 0
            },
            _ => true,
        },
{
    let s = lexical::shared(a, b, lexical::window(a.len(), b.len()));
    lexical::law_shared_characters_pair_up(a, b, lexical::window(a.len(), b.len()));
    let mine = lexical::marked(a, s.mine);
    law_differences_are_counted(mine, mine, 'x', 'x');
}

/// The marked characters are those whose marks are set, in their order.
pub proof fn law_marked_characters_are_kept(s: Seq<char>, c: char, m: Seq<bool>, on: bool)
    requires
        m.len() == s.len(),
    ensures
        lexical::marked(s.push(c), m.push(on)) == (if on {
            lexical::marked(s, m).push(c)
        } else {
            lexical::marked(s, m)
        }),
        lexical::marked(Seq::empty(), m).len() == 0,
{
    assert(s.push(c).drop_last() =~= s);
    lexical::marked_prefix(s, m, m.push(on));
}

} // verus!
