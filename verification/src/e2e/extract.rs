//! Finding the JSON object in what a language model wrote.

use vstd::prelude::*;
use crate::text;

verus! {

broadcast use vstd::string::group_string_axioms;

/// Does `serde_json` read the text as a JSON value?
pub uninterp spec fn reads_as_json(s: Seq<char>) -> bool;

/// `serde_json::from_str` into a `serde_json::Value`: whether it succeeds. What
/// it accepts is JSON; the claim is only that the answer depends on the text
/// alone.
#[verifier::external_body]
fn is_json(s: &str) -> (r: bool)
    ensures
        r == reads_as_json(s@),
{
    serde_json::from_str::<serde_json::Value>(s).is_ok()
}

/// A reader that looks for the first object in a text.
pub struct Scan {
    /// Where the object starts.
    pub start: Option<int>,
    /// How many objects are open.
    pub depth: int,
    /// Inside a string.
    pub quoted: bool,
    /// The character before was a backslash inside a string.
    pub escaped: bool,
    /// Where the object ends.
    pub end: Option<int>,
}

/// The reader before the first character.
pub open spec fn scan_start() -> Scan {
    Scan { start: None, depth: 0, quoted: false, escaped: false, end: None }
}

/// The reader after one more character.
pub open spec fn scan_step(s: Scan, i: int, c: char) -> Scan {
    if s.end is Some {
        s
    } else if s.quoted {
        if s.escaped {
            Scan { escaped: false, ..s }
        } else if c == '\\' {
            Scan { escaped: true, ..s }
        } else if c == '"' {
            Scan { quoted: false, ..s }
        } else {
            s
        }
    } else if c == '"' {
        Scan { quoted: true, ..s }
    } else if c == '{' {
        Scan {
            start: if s.start is None {
                Some(i)
            } else {
                s.start
            },
            depth: s.depth + 1,
            ..s
        }
    } else if c == '}' && s.start is Some {
        if s.depth == 1 {
            Scan { depth: 0, end: Some(i), ..s }
        } else {
            Scan { depth: s.depth - 1, ..s }
        }
    } else {
        s
    }
}

/// The reader after a text.
pub open spec fn scan(s: Seq<char>) -> Scan
    decreases s.len(),
{
    if s.len() == 0 {
        scan_start()
    } else {
        scan_step(scan(s.drop_last()), s.len() - 1, s.last())
    }
}

/// The first object in a text, from its brace to the one that closes it. Braces
/// inside strings do not count.
pub open spec fn object_in(s: Seq<char>) -> Option<Seq<char>> {
    match scan(s).end {
        Some(end) => Some(s.subrange(scan(s).start->0, end + 1)),
        None => None,
    }
}

/// What the reader knows of what it has read.
pub open spec fn scan_sound(s: Seq<char>) -> bool {
    let state = scan(s);
    &&& 0 <= state.depth <= s.len()
    &&& state.start is None ==> state.depth == 0 && state.end is None
    &&& state.start is Some ==> 0 <= state.start->0 < s.len() && s[state.start->0] == '{' && (
    state.end is None ==> state.depth >= 1)
    &&& state.end is Some ==> state.start is Some && state.start->0 < state.end->0 < s.len()
        && s[state.end->0] == '}'
}

pub proof fn scan_is_sound(s: Seq<char>)
    ensures
        scan_sound(s),
    decreases s.len(),
{
    if s.len() > 0 {
        scan_is_sound(s.drop_last());
    }
}

/// What is found in a text is a part of it that starts and ends with a brace.
pub proof fn law_found_objects_are_braced(s: Seq<char>)
    ensures
        match object_in(s) {
            Some(found) => found.len() >= 2 && found[0] == '{' && found.last() == '}'
                && text::has_substring(s, found),
            None => true,
        },
{
    scan_is_sound(s);
    if let Some(found) = object_in(s) {
        let start = scan(s).start->0;
        assert(text::occurs_at(s, found, start));
    }
}

proof fn scan_stays_ended(s: Seq<char>, n: int)
    requires
        0 <= n <= s.len(),
        scan(s.take(n)).end is Some,
    ensures
        scan(s) == scan(s.take(n)),
    decreases s.len() - n,
{
    if n < s.len() {
        assert(s.take(n + 1).drop_last() =~= s.take(n));
        scan_stays_ended(s, n + 1);
    } else {
        assert(s.take(n) =~= s);
    }
}

/// The first object in a text.
pub fn first_object(raw: &str) -> (r: Option<String>)
    ensures
        r.deep_view() == object_in(raw@),
{
    let cs = text::chars_of(raw);
    let mut start: Option<usize> = None;
    let mut depth: usize = 0;
    let mut quoted: bool = false;
    let mut escaped: bool = false;
    let mut i: usize = 0;
    while i < cs.len()
        invariant
            cs@ == raw@,
            0 <= i <= cs@.len(),
            scan(raw@.take(i as int)).end is None,
            scan(raw@.take(i as int)).quoted == quoted,
            scan(raw@.take(i as int)).escaped == escaped,
            scan(raw@.take(i as int)).depth == depth,
            match start {
                Some(k) => scan(raw@.take(i as int)).start == Some(k as int),
                None => scan(raw@.take(i as int)).start is None,
            },
        decreases cs@.len() - i,
    {
        let c = cs[i];
        proof {
            assert(raw@.take(i + 1).drop_last() =~= raw@.take(i as int));
            assert(raw@.take(i + 1).last() == c);
            scan_is_sound(raw@.take(i as int));
            scan_is_sound(raw@.take(i + 1));
        }
        if quoted {
            if escaped {
                escaped = false;
            } else if c == '\\' {
                escaped = true;
            } else if c == '"' {
                quoted = false;
            }
        } else if c == '"' {
            quoted = true;
        } else if c == '{' {
            if start.is_none() {
                start = Some(i);
            }
            depth += 1;
        } else if c == '}' {
            if let Some(k) = start {
                depth -= 1;
                if depth == 0 {
                    proof {
                        scan_stays_ended(raw@, i + 1);
                        scan_is_sound(raw@);
                    }
                    return Some(text::text_range(&cs, k, i + 1));
                }
            }
        }
        i += 1;
    }
    assert(raw@.take(i as int) =~= raw@);
    None
}

/// What is taken from a text, given whether the whole of it and the object found
/// in it are JSON.
pub open spec fn extracted(raw: Seq<char>, whole: bool, inner: bool) -> Result<
    Seq<char>,
    Seq<char>,
> {
    if whole {
        Ok(text::trimmed(raw))
    } else {
        match object_in(raw) {
            Some(found) => if inner {
                Ok(found)
            } else {
                Err("invalid extracted JSON: "@ + found)
            },
            None => Err("LLM output did not contain a JSON object"@),
        }
    }
}

/// What is taken from a text, given whether the whole of it and the object found
/// in it are JSON.
pub fn extract_decided(raw: &str, whole: bool, inner: bool) -> (r: Result<String, String>)
    ensures
        match r {
            Ok(s) => extracted(raw@, whole, inner) == Ok::<Seq<char>, Seq<char>>(s@),
            Err(e) => extracted(raw@, whole, inner) == Err::<Seq<char>, Seq<char>>(e@),
        },
{
    if whole {
        return Ok(text::trim(raw));
    }
    match first_object(raw) {
        Some(found) => if inner {
            Ok(found)
        } else {
            let mut e = "invalid extracted JSON: ".to_owned();
            e.append(found.as_str());
            Err(e)
        },
        None => Err("LLM output did not contain a JSON object".to_owned()),
    }
}

/// Is the object found in a text JSON?
pub open spec fn inner_is_json(raw: Seq<char>) -> bool {
    object_in(raw) is Some && reads_as_json(object_in(raw)->0)
}

/// The JSON in a text: the whole of it, or the first object in it.
pub fn extract_json_object(raw: &str) -> (r: Result<String, String>)
    ensures
        ({
            let want = extracted(raw@, reads_as_json(raw@), inner_is_json(raw@));
            match r {
                Ok(s) => want == Ok::<Seq<char>, Seq<char>>(s@),
                Err(e) => want == Err::<Seq<char>, Seq<char>>(e@),
            }
        }),
{
    let whole = is_json(raw);
    let inner = match first_object(raw) {
        Some(found) => is_json(found.as_str()),
        None => false,
    };
    extract_decided(raw, whole, inner)
}

/// Has a text neither braces nor quotes?
pub open spec fn is_plain(s: Seq<char>) -> bool {
    forall|i: int| 0 <= i < s.len() ==> #[trigger] s[i] != '{' && s[i] != '}' && s[i] != '"'
}

/// Has a text neither quotes nor backslashes?
pub open spec fn is_quotable(s: Seq<char>) -> bool {
    forall|i: int| 0 <= i < s.len() ==> #[trigger] s[i] != '"' && s[i] != '\\'
}

proof fn plain_is_passed(s: Seq<char>, t: Seq<char>)
    requires
        is_plain(t),
        !scan(s).quoted,
    ensures
        scan(s + t) == scan(s),
    decreases t.len(),
{
    if t.len() == 0 {
        assert(s + t =~= s);
    } else {
        let u = t.drop_last();
        assert forall|i: int| 0 <= i < u.len() implies #[trigger] u[i] != '{' && u[i] != '}' && u[i]
            != '"' by {
            assert(u[i] == t[i]);
        }
        plain_is_passed(s, u);
        assert((s + t).drop_last() =~= s + u);
        assert((s + t).last() == t[t.len() - 1]);
    }
}

proof fn quoted_is_passed(s: Seq<char>, t: Seq<char>)
    requires
        is_quotable(t),
        scan(s).quoted,
        !scan(s).escaped,
    ensures
        scan(s + t) == scan(s),
    decreases t.len(),
{
    if t.len() == 0 {
        assert(s + t =~= s);
    } else {
        let u = t.drop_last();
        assert forall|i: int| 0 <= i < u.len() implies #[trigger] u[i] != '"' && u[i] != '\\' by {
            assert(u[i] == t[i]);
        }
        quoted_is_passed(s, u);
        assert((s + t).drop_last() =~= s + u);
        assert((s + t).last() == t[t.len() - 1]);
    }
}

proof fn end_is_kept(s: Seq<char>, t: Seq<char>)
    requires
        scan(s).end is Some,
    ensures
        scan(s + t) == scan(s),
    decreases t.len(),
{
    if t.len() == 0 {
        assert(s + t =~= s);
    } else {
        end_is_kept(s, t.drop_last());
        assert((s + t).drop_last() =~= s + t.drop_last());
    }
}

proof fn one_is_read(s: Seq<char>, c: char)
    ensures
        scan(s.push(c)) == scan_step(scan(s), s.len() as int, c),
{
    assert(s.push(c).drop_last() =~= s);
    assert(s.push(c).last() == c);
}

/// The first object in a text is found whole, whatever stands before and after it: with another
/// object inside it, and with a string whose braces do not count.
pub proof fn law_first_objects_are_found(
    before: Seq<char>,
    a: Seq<char>,
    inner: Seq<char>,
    b: Seq<char>,
    said: Seq<char>,
    c: Seq<char>,
    after: Seq<char>,
)
    requires
        is_plain(before),
        is_plain(a),
        is_plain(inner),
        is_plain(b),
        is_plain(c),
        is_quotable(said),
    ensures
        ({
            let object = seq!['{'] + a + seq!['{'] + inner + seq!['}'] + b + seq!['"'] + said
                + seq!['"'] + c + seq!['}'];
            object_in(before + object + after) == Some(object)
        }),
{
    let e = Seq::<char>::empty();
    let object = seq!['{'] + a + seq!['{'] + inner + seq!['}'] + b + seq!['"'] + said + seq!['"'] + c
        + seq!['}'];
    assert(scan(e) == scan_start());
    plain_is_passed(e, before);
    assert(e + before =~= before);
    let s1 = before.push('{');
    one_is_read(before, '{');
    let s2 = s1 + a;
    plain_is_passed(s1, a);
    let s3 = s2.push('{');
    one_is_read(s2, '{');
    let s4 = s3 + inner;
    plain_is_passed(s3, inner);
    let s5 = s4.push('}');
    one_is_read(s4, '}');
    let s6 = s5 + b;
    plain_is_passed(s5, b);
    let s7 = s6.push('"');
    one_is_read(s6, '"');
    let s8 = s7 + said;
    quoted_is_passed(s7, said);
    let s9 = s8.push('"');
    one_is_read(s8, '"');
    let s10 = s9 + c;
    plain_is_passed(s9, c);
    let s11 = s10.push('}');
    one_is_read(s10, '}');
    end_is_kept(s11, after);
    assert(s11 =~= before + object);
    let whole = before + object + after;
    assert(s11 + after =~= whole);
    assert(whole.subrange(before.len() as int, (before.len() + object.len()) as int) =~= object);
}

/// A text without a brace has no object.
pub proof fn law_no_brace_no_object(s: Seq<char>)
    requires
        forall|i: int| 0 <= i < s.len() ==> #[trigger] s[i] != '{',
    ensures
        object_in(s) is None,
{
    scan_is_sound(s);
}

/// What is taken from a text is the text itself, without the white around it, where that is JSON;
/// else the first object in it, where that is; else nothing, and then the reason is told.
pub proof fn law_json_is_taken_from_texts(raw: Seq<char>, whole: bool, inner: bool)
    ensures
        extracted(raw, whole, inner) is Ok <==> whole || (object_in(raw) is Some && inner),
        match extracted(raw, whole, inner) {
            Ok(s) => (whole ==> s == text::trimmed(raw)) && (!whole ==> object_in(raw) == Some(s)),
            Err(e) => {
                &&& object_in(raw) is None ==> e == "LLM output did not contain a JSON object"@
                &&& object_in(raw) is Some ==> text::has_suffix(e, object_in(raw)->0)
            },
        },
{
    if let Some(found) = object_in(raw) {
        let e = "invalid extracted JSON: "@ + found;
        assert(e.subrange(e.len() - found.len(), e.len() as int) =~= found);
    }
}

} // verus!
