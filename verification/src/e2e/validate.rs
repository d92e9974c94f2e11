//! Holding queries against what was expected of them.

use vstd::prelude::*;
use crate::dsl::DslQuery;
use crate::dsl::DslQueryModel;
use crate::dsl::ReturnItem;
use crate::dsl::ReturnItemModel;
use crate::e2e::types::DslValidationSpec;
use crate::e2e::types::DslValidationSpecModel;
use crate::seqs;
use crate::text;

verus! {

broadcast use vstd::string::group_string_axioms;

/// A complaint for each item of which `ok` does not hold.
pub open spec fn complaints(
    items: Seq<Seq<char>>,
    ok: spec_fn(Seq<char>) -> bool,
    head: Seq<char>,
) -> Seq<Seq<char>>
    decreases items.len(),
{
    if items.len() == 0 {
        Seq::empty()
    } else {
        let before = complaints(items.drop_last(), ok, head);
        if ok(items.last()) {
            before
        } else {
            before.push(head + items.last() + "`"@)
        }
    }
}

pub(crate) fn complain<C, F: Fn(&C, &str) -> bool>(
    subject: &C,
    items: &Vec<String>,
    holds: F,
    Ghost(ok): Ghost<spec_fn(Seq<char>) -> bool>,
    head: &str,
) -> (r: Vec<String>)
    requires
        forall|s: &str| call_requires(holds, (subject, s)),
        forall|s: &str, b: bool| call_ensures(holds, (subject, s), b) ==> b == ok(s@),
    ensures
        r.deep_view() == complaints(items.deep_view(), ok, head@),
{
    let ghost all = items.deep_view();
    let mut out: Vec<String> = seqs::no_items();
    let mut i: usize = 0;
    while i < items.len()
        invariant
            all == items.deep_view(),
            0 <= i <= items@.len(),
            forall|s: &str| call_requires(holds, (subject, s)),
            forall|s: &str, b: bool| call_ensures(holds, (subject, s), b) ==> b == ok(s@),
            out.deep_view() == complaints(all.take(i as int), ok, head@),
        decreases items@.len() - i,
    {
        proof {
            assert(all.take(i + 1).drop_last() =~= all.take(i as int));
            assert(all.take(i + 1).last() == items@[i as int]@);
        }
        let item = items[i].as_str();
        if !holds(subject, item) {
            let mut s = head.to_owned();
            s.append(item);
            s.append("`");
            seqs::push_item(&mut out, s);
        }
        i += 1;
    }
    assert(all.take(i as int) =~= all);
    out
}

/// A complaint about a count, where there is one.
pub open spec fn count_complaint(
    bad: bool,
    head: Seq<char>,
    want: nat,
    got: nat,
) -> Seq<Seq<char>> {
    if bad {
        seq![head + text::nat_text(want) + ", got "@ + text::nat_text(got)]
    } else {
        Seq::empty()
    }
}

pub(crate) fn complain_count(errors: &mut Vec<String>, bad: bool, head: &str, want: usize, got: usize)
    ensures
        final(errors).deep_view() == old(errors).deep_view() + count_complaint(
            bad,
            head@,
            want as nat,
            got as nat,
        ),
{
    let ghost before = errors.deep_view();
    if bad {
        let mut s = head.to_owned();
        s.append(text::usize_text(want).as_str());
        s.append(", got ");
        s.append(text::usize_text(got).as_str());
        seqs::push_item(errors, s);
    }
    assert(errors.deep_view() =~= before + count_complaint(bad, head@, want as nat, got as nat));
}

/// Too few, too many or another count than expected.
pub open spec fn below(want: Option<usize>, got: nat) -> bool {
    want is Some && got < want->0
}

pub open spec fn above(want: Option<usize>, got: nat) -> bool {
    want is Some && got > want->0
}

pub open spec fn other(want: Option<usize>, got: nat) -> bool {
    want is Some && got != want->0
}

pub(crate) fn wanted(want: Option<usize>) -> (r: usize)
    ensures
        want is Some ==> r == want->0,
{
    match want {
        Some(n) => n,
        None => 0,
    }
}

pub(crate) fn is_below(want: Option<usize>, got: usize) -> (r: bool)
    ensures
        r == below(want, got as nat),
{
    match want {
        Some(n) => got < n,
        None => false,
    }
}

pub(crate) fn is_above(want: Option<usize>, got: usize) -> (r: bool)
    ensures
        r == above(want, got as nat),
{
    match want {
        Some(n) => got > n,
        None => false,
    }
}

pub(crate) fn is_other(want: Option<usize>, got: usize) -> (r: bool)
    ensures
        r == other(want, got as nat),
{
    match want {
        Some(n) => got != n,
        None => false,
    }
}

/// What follows the last dot.
pub open spec fn after_last_dot(s: Seq<char>) -> Option<Seq<char>>
    decreases s.len(),
{
    if s.len() == 0 {
        None
    } else if s.last() == '.' {
        Some(Seq::empty())
    } else {
        match after_last_dot(s.drop_last()) {
            Some(t) => Some(t.push(s.last())),
            None => None,
        }
    }
}

fn last_part(s: &str) -> (r: Option<String>)
    ensures
        r.deep_view() == after_last_dot(s@),
{
    let cs = text::chars_of(s);
    let mut out: Option<String> = None;
    let mut i: usize = 0;
    while i < cs.len()
        invariant
            cs@ == s@,
            0 <= i <= cs@.len(),
            out.deep_view() == after_last_dot(s@.take(i as int)),
        decreases cs@.len() - i,
    {
        let c = cs[i];
        proof {
            assert(s@.take(i + 1).drop_last() =~= s@.take(i as int));
            assert(s@.take(i + 1).last() == c);
        }
        if c == '.' {
            out = Some(String::new());
        } else {
            out = match out {
                Some(t) => {
                    let mut t = t;
                    t.push(c);
                    Some(t)
                },
                None => None,
            };
        }
        i += 1;
    }
    assert(s@.take(i as int) =~= s@);
    out
}

/// Is a field the expected one, written with its alias or without?
pub open spec fn names_field(actual: Seq<char>, expected: Seq<char>) -> bool {
    actual == expected || (after_last_dot(actual) is Some && text::ascii_lower(
        after_last_dot(actual)->0,
    ) == text::ascii_lower(expected))
}

/// Is a field the expected one, written with its alias or without?
pub fn field_matches(actual: &str, expected: &str) -> (r: bool)
    ensures
        r == names_field(actual@, expected@),
{
    if text::text_eq(actual, expected) {
        return true;
    }
    match last_part(actual) {
        Some(part) => text::text_eq_ignore_case(part.as_str(), expected),
        None => false,
    }
}

/// Does an item return the expected field, or anything under that alias?
pub open spec fn returns_expected(item: ReturnItemModel, expected: Seq<char>) -> bool {
    match item {
        ReturnItemModel::Field { field, alias } => names_field(field, expected) || alias == Some(
            expected,
        ),
        ReturnItemModel::Aggregate { function: _, field, alias } => names_field(field, expected)
            || alias == Some(expected),
        ReturnItemModel::DatePart { field, part: _, alias } => names_field(field, expected)
            || alias == Some(expected),
    }
}

/// Does an item return the expected field, or anything under that alias?
pub fn return_item_matches(item: &ReturnItem, expected: &str) -> (r: bool)
    ensures
        r == returns_expected(item.deep_view(), expected@),
{
    match item {
        ReturnItem::Field { field, alias } => field_matches(field.as_str(), expected)
            || seqs::option_is(alias, expected),
        ReturnItem::Aggregate { function: _, field, alias } => field_matches(
            field.as_str(),
            expected,
        ) || seqs::option_is(alias, expected),
        ReturnItem::DatePart { field, part: _, alias } => field_matches(field.as_str(), expected)
            || seqs::option_is(alias, expected),
    }
}

/// A query filters on a field.
pub open spec fn filters_on(q: DslQueryModel) -> spec_fn(Seq<char>) -> bool {
    |x: Seq<char>|
        exists|i: int| 0 <= i < q.filters.len() && names_field((#[trigger] q.filters[i]).field, x)
}

/// A query has a filter of an operator.
pub open spec fn filters_by(q: DslQueryModel) -> spec_fn(Seq<char>) -> bool {
    |x: Seq<char>|
        exists|i: int|
            0 <= i < q.filters.len() && text::ascii_lower((#[trigger] q.filters[i]).op)
                == text::ascii_lower(x)
}

/// A query has no filter of an operator.
pub open spec fn filters_without(q: DslQueryModel) -> spec_fn(Seq<char>) -> bool {
    |x: Seq<char>| !filters_by(q)(x)
}

/// A query returns a field.
pub open spec fn yields(q: DslQueryModel) -> spec_fn(Seq<char>) -> bool {
    |x: Seq<char>|
        exists|i: int| 0 <= i < q.return_.len() && returns_expected(#[trigger] q.return_[i], x)
}

/// A query follows an edge of a label, or one to a node of it.
pub open spec fn traverses(q: DslQueryModel) -> spec_fn(Seq<char>) -> bool {
    |x: Seq<char>|
        exists|i: int|
            0 <= i < q.traversals.len() && (text::ascii_lower((#[trigger] q.traversals[i]).edge.label)
                == text::ascii_lower(x) || text::ascii_lower(q.traversals[i].target.label)
                == text::ascii_lower(x))
}

fn has_filter_field(q: &DslQuery, x: &str) -> (r: bool)
    ensures
        r == filters_on(q.deep_view())(x@),
{
    let ghost m = q.deep_view();
    let mut i: usize = 0;
    while i < q.filters.len()
        invariant
            m == q.deep_view(),
            0 <= i <= q.filters@.len(),
            forall|k: int| 0 <= k < i ==> !names_field((#[trigger] m.filters[k]).field, x@),
        decreases q.filters@.len() - i,
    {
        assert(m.filters[i as int] == q.filters@[i as int].deep_view());
        if field_matches(q.filters[i].field.as_str(), x) {
            return true;
        }
        i += 1;
    }
    false
}

fn has_filter_op(q: &DslQuery, x: &str) -> (r: bool)
    ensures
        r == filters_by(q.deep_view())(x@),
{
    let ghost m = q.deep_view();
    let mut i: usize = 0;
    while i < q.filters.len()
        invariant
            m == q.deep_view(),
            0 <= i <= q.filters@.len(),
            forall|k: int|
                0 <= k < i ==> text::ascii_lower((#[trigger] m.filters[k]).op)
                    != text::ascii_lower(x@),
        decreases q.filters@.len() - i,
    {
        assert(m.filters[i as int] == q.filters@[i as int].deep_view());
        if text::text_eq_ignore_case(q.filters[i].op.as_str(), x) {
            return true;
        }
        i += 1;
    }
    false
}

fn lacks_filter_op(q: &DslQuery, x: &str) -> (r: bool)
    ensures
        r == filters_without(q.deep_view())(x@),
{
    !has_filter_op(q, x)
}

fn has_return(q: &DslQuery, x: &str) -> (r: bool)
    ensures
        r == yields(q.deep_view())(x@),
{
    let ghost m = q.deep_view();
    let mut i: usize = 0;
    while i < q.return_.len()
        invariant
            m == q.deep_view(),
            0 <= i <= q.return_@.len(),
            forall|k: int| 0 <= k < i ==> !returns_expected(#[trigger] m.return_[k], x@),
        decreases q.return_@.len() - i,
    {
        assert(m.return_[i as int] == q.return_@[i as int].deep_view());
        if return_item_matches(&q.return_[i], x) {
            return true;
        }
        i += 1;
    }
    false
}

fn has_traversal(q: &DslQuery, x: &str) -> (r: bool)
    ensures
        r == traverses(q.deep_view())(x@),
{
    let ghost m = q.deep_view();
    let mut i: usize = 0;
    while i < q.traversals.len()
        invariant
            m == q.deep_view(),
            0 <= i <= q.traversals@.len(),
            forall|k: int|
                0 <= k < i ==> text::ascii_lower((#[trigger] m.traversals[k]).edge.label)
                    != text::ascii_lower(x@) && text::ascii_lower(m.traversals[k].target.label)
                    != text::ascii_lower(x@),
        decreases q.traversals@.len() - i,
    {
        assert(m.traversals[i as int] == q.traversals@[i as int].deep_view());
        if text::text_eq_ignore_case(q.traversals[i].edge.label.as_str(), x)
            || text::text_eq_ignore_case(q.traversals[i].target.label.as_str(), x) {
            return true;
        }
        i += 1;
    }
    false
}

/// A complaint that one text stands where another was expected.
pub open spec fn mismatch(bad: bool, head: Seq<char>, want: Seq<char>, got: Seq<char>) -> Seq<
    Seq<char>,
> {
    if bad {
        seq![head + want + "`, got `"@ + got + "`"@]
    } else {
        Seq::empty()
    }
}

fn complain_mismatch(errors: &mut Vec<String>, bad: bool, head: &str, want: &str, got: &str)
    ensures
        final(errors).deep_view() == old(errors).deep_view() + mismatch(bad, head@, want@, got@),
{
    let ghost before = errors.deep_view();
    if bad {
        let mut s = head.to_owned();
        s.append(want);
        s.append("`, got `");
        s.append(got);
        s.append("`");
        seqs::push_item(errors, s);
    }
    assert(errors.deep_view() =~= before + mismatch(bad, head@, want@, got@));
}

/// What is wrong with where a query starts.
pub open spec fn start_errors(spec: DslValidationSpecModel, q: DslQueryModel) -> Seq<Seq<char>> {
    (match spec.start_label {
        Some(want) => mismatch(
            text::ascii_lower(q.start.label) != text::ascii_lower(want),
            "dsl start label mismatch: expected `"@,
            want,
            q.start.label,
        ),
        None => Seq::empty(),
    }) + (match spec.start_alias {
        Some(want) => mismatch(
            q.start.alias != want,
            "dsl start alias mismatch: expected `"@,
            want,
            q.start.alias,
        ),
        None => Seq::empty(),
    })
}

/// What is wrong with how much a query has.
pub open spec fn size_errors(spec: DslValidationSpecModel, q: DslQueryModel) -> Seq<Seq<char>> {
    count_complaint(
        below(spec.min_filters, q.filters.len()),
        "dsl filter count below minimum: expected at least "@,
        spec.min_filters->0 as nat,
        q.filters.len(),
    ) + count_complaint(
        above(spec.max_filters, q.filters.len()),
        "dsl filter count above maximum: expected at most "@,
        spec.max_filters->0 as nat,
        q.filters.len(),
    ) + count_complaint(
        below(spec.min_returns, q.return_.len()),
        "dsl return count below minimum: expected at least "@,
        spec.min_returns->0 as nat,
        q.return_.len(),
    ) + count_complaint(
        above(spec.max_returns, q.return_.len()),
        "dsl return count above maximum: expected at most "@,
        spec.max_returns->0 as nat,
        q.return_.len(),
    )
}

/// What is wrong with what a query asks.
pub open spec fn part_errors(spec: DslValidationSpecModel, q: DslQueryModel) -> Seq<Seq<char>> {
    complaints(
        spec.required_filter_fields,
        filters_on(q),
        "dsl missing filter field matching `"@,
    ) + complaints(spec.required_filter_ops, filters_by(q), "dsl missing filter op `"@)
        + complaints(
        spec.forbidden_filter_ops,
        filters_without(q),
        "dsl contains forbidden filter op `"@,
    ) + complaints(spec.required_return_fields, yields(q), "dsl missing return item matching `"@)
        + complaints(
        spec.required_traversal_labels,
        traverses(q),
        "dsl missing traversal edge or target matching `"@,
    )
}

/// What is wrong with a query.
pub open spec fn dsl_errors(spec: Option<DslValidationSpecModel>, q: DslQueryModel) -> Seq<
    Seq<char>,
> {
    match spec {
        Some(spec) => start_errors(spec, q) + size_errors(spec, q) + part_errors(spec, q),
        None => Seq::empty(),
    }
}

fn check_start(spec: &DslValidationSpec, q: &DslQuery) -> (r: Vec<String>)
    ensures
        r.deep_view() == start_errors(spec.deep_view(), q.deep_view()),
{
    let mut errors: Vec<String> = seqs::no_items();
    if let Some(want) = &spec.start_label {
        let bad = !text::text_eq_ignore_case(q.start.label.as_str(), want.as_str());
        complain_mismatch(
            &mut errors,
            bad,
            "dsl start label mismatch: expected `",
            want.as_str(),
            q.start.label.as_str(),
        );
    }
    if let Some(want) = &spec.start_alias {
        let bad = !text::text_eq(q.start.alias.as_str(), want.as_str());
        complain_mismatch(
            &mut errors,
            bad,
            "dsl start alias mismatch: expected `",
            want.as_str(),
            q.start.alias.as_str(),
        );
    }
    assert(errors.deep_view() =~= start_errors(spec.deep_view(), q.deep_view()));
    errors
}

fn check_sizes(spec: &DslValidationSpec, q: &DslQuery) -> (r: Vec<String>)
    ensures
        r.deep_view() == size_errors(spec.deep_view(), q.deep_view()),
{
    let mut errors: Vec<String> = seqs::no_items();
    let filters = q.filters.len();
    let returned = q.return_.len();
    proof {
        assert(q.filters.deep_view().len() == filters);
        assert(q.return_.deep_view().len() == returned);
    }
    complain_count(
        &mut errors,
        is_below(spec.min_filters, filters),
        "dsl filter count below minimum: expected at least ",
        wanted(spec.min_filters),
        filters,
    );
    complain_count(
        &mut errors,
        is_above(spec.max_filters, filters),
        "dsl filter count above maximum: expected at most ",
        wanted(spec.max_filters),
        filters,
    );
    complain_count(
        &mut errors,
        is_below(spec.min_returns, returned),
        "dsl return count below minimum: expected at least ",
        wanted(spec.min_returns),
        returned,
    );
    complain_count(
        &mut errors,
        is_above(spec.max_returns, returned),
        "dsl return count above maximum: expected at most ",
        wanted(spec.max_returns),
        returned,
    );
    assert(errors.deep_view() =~= size_errors(spec.deep_view(), q.deep_view()));
    errors
}

fn check_parts(spec: &DslValidationSpec, q: &DslQuery) -> (r: Vec<String>)
    ensures
        r.deep_view() == part_errors(spec.deep_view(), q.deep_view()),
{
    let ghost m = q.deep_view();
    let mut errors = complain(
        q,
        &spec.required_filter_fields,
        has_filter_field,
        Ghost(filters_on(m)),
        "dsl missing filter field matching `",
    );
    let more = complain(
        q,
        &spec.required_filter_ops,
        has_filter_op,
        Ghost(filters_by(m)),
        "dsl missing filter op `",
    );
    seqs::append_items(&mut errors, more);
    let more = complain(
        q,
        &spec.forbidden_filter_ops,
        lacks_filter_op,
        Ghost(filters_without(m)),
        "dsl contains forbidden filter op `",
    );
    seqs::append_items(&mut errors, more);
    let more = complain(
        q,
        &spec.required_return_fields,
        has_return,
        Ghost(yields(m)),
        "dsl missing return item matching `",
    );
    seqs::append_items(&mut errors, more);
    let more = complain(
        q,
        &spec.required_traversal_labels,
        has_traversal,
        Ghost(traverses(m)),
        "dsl missing traversal edge or target matching `",
    );
    seqs::append_items(&mut errors, more);
    errors
}

/// What is wrong with a query.
pub fn validate_dsl(spec: &Option<DslValidationSpec>, q: &DslQuery) -> (r: Vec<String>)
    ensures
        r.deep_view() == dsl_errors(spec.deep_view(), q.deep_view()),
{
    match spec {
        Some(spec) => {
            let mut errors = check_start(spec, q);
            seqs::append_items(&mut errors, check_sizes(spec, q));
            seqs::append_items(&mut errors, check_parts(spec, q));
            errors
        },
        None => seqs::no_items(),
    }
}

pub(crate) proof fn no_complaints(items: Seq<Seq<char>>, ok: spec_fn(Seq<char>) -> bool, head: Seq<char>)
    ensures
        complaints(items, ok, head).len() == 0 <==> forall|i: int|
            0 <= i < items.len() ==> ok(#[trigger] items[i]),
    decreases items.len(),
{
    if items.len() > 0 {
        let rest = items.drop_last();
        no_complaints(rest, ok, head);
        if forall|i: int| 0 <= i < rest.len() ==> ok(#[trigger] rest[i]) {
            if ok(items.last()) {
                assert forall|i: int| 0 <= i < items.len() implies ok(#[trigger] items[i]) by {
                    if i < rest.len() {
                        assert(ok(rest[i]));
                    }
                }
            } else {
                assert(!ok(items[items.len() - 1]));
            }
        } else {
            let k = choose|k: int| 0 <= k < rest.len() && !ok(#[trigger] rest[k]);
            assert(!ok(items[k]));
        }
    }
}

/// Nothing is wrong with a query exactly when it has all that is required and
/// nothing that is forbidden.
pub proof fn law_query_without_errors(spec: DslValidationSpecModel, q: DslQueryModel)
    ensures
        dsl_errors(Some(spec), q).len() == 0 <==> {
            &&& spec.start_label is Some ==> text::ascii_lower(q.start.label) == text::ascii_lower(
                spec.start_label->0,
            )
            &&& spec.start_alias is Some ==> q.start.alias == spec.start_alias->0
            &&& !below(spec.min_filters, q.filters.len())
            &&& !above(spec.max_filters, q.filters.len())
            &&& !below(spec.min_returns, q.return_.len())
            &&& !above(spec.max_returns, q.return_.len())
            &&& forall|i: int|
                0 <= i < spec.required_filter_fields.len() ==> filters_on(q)(
                    #[trigger] spec.required_filter_fields[i],
                )
            &&& forall|i: int|
                0 <= i < spec.required_filter_ops.len() ==> filters_by(q)(
                    #[trigger] spec.required_filter_ops[i],
                )
            &&& forall|i: int|
                0 <= i < spec.forbidden_filter_ops.len() ==> filters_without(q)(
                    #[trigger] spec.forbidden_filter_ops[i],
                )
            &&& forall|i: int|
                0 <= i < spec.required_return_fields.len() ==> yields(q)(
                    #[trigger] spec.required_return_fields[i],
                )
            &&& forall|i: int|
                0 <= i < spec.required_traversal_labels.len() ==> traverses(q)(
                    #[trigger] spec.required_traversal_labels[i],
                )
        },
{
    no_complaints(
        spec.required_filter_fields,
        filters_on(q),
        "dsl missing filter field matching `"@,
    );
    no_complaints(spec.required_filter_ops, filters_by(q), "dsl missing filter op `"@);
    no_complaints(
        spec.forbidden_filter_ops,
        filters_without(q),
        "dsl contains forbidden filter op `"@,
    );
    no_complaints(
        spec.required_return_fields,
        yields(q),
        "dsl missing return item matching `"@,
    );
    no_complaints(
        spec.required_traversal_labels,
        traverses(q),
        "dsl missing traversal edge or target matching `"@,
    );
}

/// A field that is written with its alias is found by its own name, whatever the case of its
/// letters, and no other is.
pub proof fn law_fields_are_found_by_name(alias: Seq<char>, field: Seq<char>, expected: Seq<char>)
    requires
        forall|i: int| 0 <= i < field.len() ==> #[trigger] field[i] != '.',
        forall|i: int| 0 <= i < expected.len() ==> #[trigger] expected[i] != '.',
    ensures
        names_field(alias + seq!['.'] + field, expected) <==> text::ascii_lower(field)
            == text::ascii_lower(expected),
        names_field(field, expected) <==> field == expected,
{
    part_after_dot(alias, field);
    no_dot_no_part(field);
    let whole = alias + seq!['.'] + field;
    if whole == expected {
        assert(expected[alias.len() as int] == '.');
    }
}

proof fn part_after_dot(alias: Seq<char>, field: Seq<char>)
    requires
        forall|i: int| 0 <= i < field.len() ==> #[trigger] field[i] != '.',
    ensures
        after_last_dot(alias + seq!['.'] + field) == Some(field),
    decreases field.len(),
{
    let whole = alias + seq!['.'] + field;
    if field.len() == 0 {
        assert(whole.last() == '.');
        assert(field =~= Seq::<char>::empty());
    } else {
        let rest = field.drop_last();
        assert forall|i: int| 0 <= i < rest.len() implies #[trigger] rest[i] != '.' by {
            assert(rest[i] == field[i]);
        }
        part_after_dot(alias, rest);
        assert(whole.drop_last() =~= alias + seq!['.'] + rest);
        assert(whole.last() == field[field.len() - 1]);
        assert(rest.push(whole.last()) =~= field);
    }
}

proof fn no_dot_no_part(s: Seq<char>)
    requires
        forall|i: int| 0 <= i < s.len() ==> #[trigger] s[i] != '.',
    ensures
        after_last_dot(s) is None,
    decreases s.len(),
{
    if s.len() > 0 {
        let rest = s.drop_last();
        assert forall|i: int| 0 <= i < rest.len() implies #[trigger] rest[i] != '.' by {
            assert(rest[i] == s[i]);
        }
        no_dot_no_part(rest);
        assert(s[s.len() - 1] != '.');
    }
}

/// Has a query a filter on a field?
pub open spec fn has_filter_on(q: DslQueryModel, field: Seq<char>) -> bool {
    exists|i: int| 0 <= i < q.filters.len() && names_field((#[trigger] q.filters[i]).field, field)
}

/// Has a query a filter with an operator, whatever the case of its letters?
pub open spec fn has_filter_by(q: DslQueryModel, op: Seq<char>) -> bool {
    exists|i: int|
        0 <= i < q.filters.len() && text::ascii_lower((#[trigger] q.filters[i]).op)
            == text::ascii_lower(op)
}

/// Is a field returned, by its own name or under that as an alias?
pub open spec fn gives_field(item: ReturnItemModel, name: Seq<char>) -> bool {
    let (field, alias) = match item {
        ReturnItemModel::Field { field, alias } => (field, alias),
        ReturnItemModel::Aggregate { function: _, field, alias } => (field, alias),
        ReturnItemModel::DatePart { field, part: _, alias } => (field, alias),
    };
    names_field(field, name) || alias == Some(name)
}

pub open spec fn returns_field(q: DslQueryModel, name: Seq<char>) -> bool {
    exists|i: int| 0 <= i < q.return_.len() && gives_field(#[trigger] q.return_[i], name)
}

/// Does a query walk along an edge of a label, or to a node of it?
pub open spec fn walks_along(q: DslQueryModel, label: Seq<char>) -> bool {
    exists|i: int|
        0 <= i < q.traversals.len() && (text::ascii_lower((#[trigger] q.traversals[i]).edge.label)
            == text::ascii_lower(label) || text::ascii_lower(q.traversals[i].target.label)
            == text::ascii_lower(label))
}

/// A query in which nothing is wrong has as many filters and returns as it should, filters on every
/// field and by every operator that is required and by none that is forbidden, returns every field
/// that is required, and walks along every label; and a query that does all this, from the start
/// that it should have, is right.
pub proof fn law_right_queries_do_as_required(spec: DslValidationSpecModel, q: DslQueryModel)
    ensures
        dsl_errors(Some(spec), q).len() == 0 <==> {
            &&& spec.start_label is Some ==> text::ascii_lower(q.start.label) == text::ascii_lower(
                spec.start_label->0,
            )
            &&& spec.start_alias is Some ==> q.start.alias == spec.start_alias->0
            &&& spec.min_filters is Some ==> q.filters.len() >= spec.min_filters->0
            &&& spec.max_filters is Some ==> q.filters.len() <= spec.max_filters->0
            &&& spec.min_returns is Some ==> q.return_.len() >= spec.min_returns->0
            &&& spec.max_returns is Some ==> q.return_.len() <= spec.max_returns->0
            &&& forall|i: int|
                0 <= i < spec.required_filter_fields.len() ==> has_filter_on(
                    q,
                    #[trigger] spec.required_filter_fields[i],
                )
            &&& forall|i: int|
                0 <= i < spec.required_filter_ops.len() ==> has_filter_by(
                    q,
                    #[trigger] spec.required_filter_ops[i],
                )
            &&& forall|i: int|
                0 <= i < spec.forbidden_filter_ops.len() ==> !has_filter_by(
                    q,
                    #[trigger] spec.forbidden_filter_ops[i],
                )
            &&& forall|i: int|
                0 <= i < spec.required_return_fields.len() ==> returns_field(
                    q,
                    #[trigger] spec.required_return_fields[i],
                )
            &&& forall|i: int|
                0 <= i < spec.required_traversal_labels.len() ==> walks_along(
                    q,
                    #[trigger] spec.required_traversal_labels[i],
                )
        },
        dsl_errors(None, q).len() == 0,
{
    law_query_without_errors(spec, q);
    assert forall|x: Seq<char>| #[trigger] yields(q)(x) == returns_field(q, x) by {
        if yields(q)(x) {
            let i = choose|i: int|
                0 <= i < q.return_.len() && returns_expected(#[trigger] q.return_[i], x);
            assert(gives_field(q.return_[i], x));
        }
        if returns_field(q, x) {
            let i = choose|i: int|
                0 <= i < q.return_.len() && gives_field(#[trigger] q.return_[i], x);
            assert(returns_expected(q.return_[i], x));
        }
    }
    assert forall|x: Seq<char>| #[trigger] filters_on(q)(x) == has_filter_on(q, x) by {}
    assert forall|x: Seq<char>| #[trigger] filters_by(q)(x) == has_filter_by(q, x) by {}
    assert forall|x: Seq<char>| #[trigger] filters_without(q)(x) == !has_filter_by(q, x) by {
        assert(filters_by(q)(x) == has_filter_by(q, x));
    }
    assert forall|x: Seq<char>| #[trigger] traverses(q)(x) == walks_along(q, x) by {}
}

} // verus!
