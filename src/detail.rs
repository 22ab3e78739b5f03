//! A departure's detail page: its service notices and its delay.
use vstd::prelude::*;
use vstd::string::*;
use crate::html::{journey_messages, journey_messages_of, opt_view, route_times, route_times_of};
use crate::models::{clone_option, strings_view, DepartureDetail, DepartureOverview};
use crate::text::{chars_of, sanitize, sanitized, string_of};

verus! {

/// The notices among `texts`: each sanitized, the empty ones left out, in order.
pub open spec fn notices(texts: Seq<Seq<char>>) -> Seq<Seq<char>>
    decreases texts.len(),
{
    if texts.len() == 0 {
        Seq::empty()
    } else if sanitized(texts.last()).len() == 0 {
        notices(texts.drop_last())
    } else {
        notices(texts.drop_last()).push(sanitized(texts.last()))
    }
}

/// The token a route step shows when a departure runs without delay.
pub open spec fn no_delay() -> Seq<char> {
    seq!['\u{b1}', '0', '\'']
}

pub open spec fn on_time() -> Seq<char> {
    seq!['o', 'n', ' ', 't', 'i', 'm', 'e']
}

pub open spec fn delayed_prefix() -> Seq<char> {
    seq!['d', 'e', 'l', 'a', 'y', 'e', 'd', ' ']
}

pub open spec fn starts_with(s: Seq<char>, p: Seq<char>) -> bool {
    p.len() <= s.len() && s.subrange(0, p.len() as int) == p
}

/// The characters of `s` before its first backslash.
pub open spec fn until_backslash(s: Seq<char>) -> Seq<char>
    decreases s.len(),
{
    if s.len() == 0 || s[0] == '\\' {
        Seq::empty()
    } else {
        seq![s[0]] + until_backslash(s.drop_first())
    }
}

/// A sanitized route-step text that belongs to the departure leaving at `time`.
pub open spec fn is_step_of(time: Seq<char>, t: Seq<char>) -> bool {
    starts_with(t, time) && t.len() > 5
}

/// The delay token of a step text: from its sixth character up to the first backslash.
pub open spec fn token_of(t: Seq<char>) -> Seq<char> {
    until_backslash(t.subrange(5, t.len() as int))
}

/// The token of the first route step that belongs to `time`, if any.
pub open spec fn delay_token(time: Seq<char>, texts: Seq<Seq<char>>) -> Option<Seq<char>>
    decreases texts.len(),
{
    if texts.len() == 0 {
        None
    } else if is_step_of(time, sanitized(texts[0])) {
        Some(token_of(sanitized(texts[0])))
    } else {
        delay_token(time, texts.drop_first())
    }
}

/// "delayed " and the token when the first matching step shows a delay,
/// "on time" otherwise.
pub open spec fn status_of(time: Seq<char>, texts: Seq<Seq<char>>) -> Seq<char> {
    match delay_token(time, texts) {
        Some(tok) => if tok == no_delay() {
            on_time()
        } else {
            delayed_prefix() + tok
        },
        None => on_time(),
    }
}

proof fn lemma_first_step(time: Seq<char>, texts: Seq<Seq<char>>, k: int)
    requires
        0 <= k < texts.len(),
        is_step_of(time, sanitized(texts[k])),
        forall|j: int| 0 <= j < k ==> !is_step_of(time, #[trigger] sanitized(texts[j])),
    ensures
        delay_token(time, texts) == Some(token_of(sanitized(texts[k]))),
    decreases k,
{
    if k > 0 {
        let rest = texts.drop_first();
        assert(!is_step_of(time, sanitized(texts[0])));
        assert forall|j: int| 0 <= j < k - 1 implies !is_step_of(time, #[trigger] sanitized(rest[j])) by {
            assert(rest[j] == texts[j + 1]);
        }
        lemma_first_step(time, rest, k - 1);
    }
}

/// When exactly one route step belongs to the departure, its token decides:
/// the no-delay token gives "on time", any other token `t` gives "delayed t".
pub proof fn lemma_single_step_status(time: Seq<char>, texts: Seq<Seq<char>>, k: int)
    requires
        0 <= k < texts.len(),
        is_step_of(time, sanitized(texts[k])),
        forall|j: int| 0 <= j < texts.len() && j != k ==> !is_step_of(time, #[trigger] sanitized(texts[j])),
    ensures
        token_of(sanitized(texts[k])) == no_delay() ==> status_of(time, texts) == on_time(),
        token_of(sanitized(texts[k])) != no_delay() ==> status_of(time, texts)
            == delayed_prefix() + token_of(sanitized(texts[k])),
{
    lemma_first_step(time, texts, k);
}

fn has_prefix(s: &Vec<char>, p: &Vec<char>) -> (r: bool)
    ensures
        r == starts_with(s@, p@),
{
    if p.len() > s.len() {
        return false;
    }
    let mut i: usize = 0;
    while i < p.len()
        invariant
            p@.len() <= s@.len(),
            i <= p@.len(),
            s@.subrange(0, i as int) == p@.subrange(0, i as int),
        decreases p@.len() - i,
    {
        if s[i] != p[i] {
            assert(s@.subrange(0, p@.len() as int)[i as int] != p@[i as int]);
            return false;
        }
        assert(s@.subrange(0, i + 1) == s@.subrange(0, i as int).push(s@[i as int]));
        assert(p@.subrange(0, i + 1) == p@.subrange(0, i as int).push(p@[i as int]));
        i = i + 1;
    }
    assert(p@.subrange(0, p@.len() as int) == p@);
    true
}

fn is_no_delay(v: &Vec<char>) -> (r: bool)
    ensures
        r == (v@ == no_delay()),
{
    let r = v.len() == 3 && v[0] == '\u{b1}' && v[1] == '0' && v[2] == '\'';
    proof {
        if r {
            assert(v@ =~= no_delay());
        } else if v@ == no_delay() {
            assert(v@[0] == '\u{b1}' && v@[1] == '0' && v@[2] == '\'');
        }
    }
    r
}

/// The token of a step text of more than five characters.
fn step_token(t: &Vec<char>) -> (r: Vec<char>)
    requires
        t@.len() > 5,
    ensures
        r@ == token_of(t@),
{
    let n = t.len();
    let mut out: Vec<char> = Vec::new();
    let mut j: usize = 5;
    while j < n && t[j] != '\\'
        invariant
            5 <= j <= n == t@.len(),
            token_of(t@) == out@ + until_backslash(t@.subrange(j as int, n as int)),
        decreases n - j,
    {
        proof {
            let rest = t@.subrange(j as int, n as int);
            assert(rest.drop_first() == t@.subrange(j + 1, n as int));
            assert(out@.push(t@[j as int]) + until_backslash(rest.drop_first())
                == out@ + (seq![t@[j as int]] + until_backslash(rest.drop_first())));
        }
        out.push(t[j]);
        j = j + 1;
    }
    assert(until_backslash(t@.subrange(j as int, n as int)) == Seq::<char>::empty());
    assert(out@ + Seq::<char>::empty() == out@);
    out
}

/// "on time", or "delayed " followed by the delay token of the first route
/// step whose sanitized text starts with `time` and is longer than five
/// characters.
pub fn delay_status(time: &String, route_texts: &Vec<String>) -> (r: String)
    ensures
        r@ == status_of(time@, strings_view(route_texts@)),
{
    let ghost all = strings_view(route_texts@);
    let tv = chars_of(time.as_str());
    let mut found: Option<Vec<char>> = None;
    let mut i: usize = 0;
    assert(all.subrange(0, all.len() as int) == all);
    while i < route_texts.len() && found.is_none()
        invariant
            i <= route_texts@.len() == all.len(),
            all == strings_view(route_texts@),
            tv@ == time@,
            found is None ==> delay_token(time@, all) == delay_token(time@, all.subrange(i as int, all.len() as int)),
            found matches Some(tok) ==> delay_token(time@, all) == Some(tok@),
        decreases route_texts@.len() - i,
    {
        let ghost rest = all.subrange(i as int, all.len() as int);
        assert(rest[0] == route_texts@[i as int]@);
        assert(rest.drop_first() == all.subrange(i + 1, all.len() as int));
        let txt = chars_of(sanitize(route_texts[i].clone()).as_str());
        if has_prefix(&txt, &tv) && txt.len() > 5 {
            found = Some(step_token(&txt));
        }
        i = i + 1;
    }
    proof {
        if found is None {
            assert(all.subrange(all.len() as int, all.len() as int).len() == 0);
        }
    }
    proof {
        reveal_strlit("on time");
        reveal_strlit("delayed ");
    }
    match found {
        Some(tok) => if is_no_delay(&tok) {
            let r = String::from_str("on time");
            assert(r@ =~= on_time());
            r
        } else {
            let p = String::from_str("delayed ");
            assert(p@ =~= delayed_prefix());
            p.concat(string_of(&tok).as_str())
        },
        None => {
            let r = String::from_str("on time");
            assert(r@ =~= on_time());
            r
        },
    }
}

/// The notices of a detail page: each sanitized, the empty ones dropped.
pub fn notices_of(texts: &Vec<String>) -> (r: Vec<String>)
    ensures
        strings_view(r@) == notices(strings_view(texts@)),
{
    let ghost all = strings_view(texts@);
    let mut out: Vec<String> = Vec::new();
    let mut i: usize = 0;
    while i < texts.len()
        invariant
            i <= texts@.len() == all.len(),
            all == strings_view(texts@),
            strings_view(out@) == notices(all.subrange(0, i as int)),
        decreases texts@.len() - i,
    {
        let ghost before = all.subrange(0, i as int);
        assert(all.subrange(0, i + 1).drop_last() == before);
        assert(all[i as int] == texts@[i as int]@);
        let s = sanitize(texts[i].clone());
        if s.as_str().is_empty() == false {
            let ghost prev = out@;
            out.push(s);
            assert(strings_view(out@) == strings_view(prev).push(s@));
        }
        i = i + 1;
    }
    assert(all.subrange(0, all.len() as int) == all);
    out
}

/// The detail of one departure read from its detail page: the listed fields
/// copied, the notices, and the delay status.
pub fn departure_detail_from_page(departure: &DepartureOverview, page: &str) -> (r: DepartureDetail)
    ensures
        r.time@ == departure.time@,
        r.line@ == departure.line@,
        r.direction@ == departure.direction@,
        opt_view(r.platform) == opt_view(departure.platform),
        r.status@ == status_of(departure.time@, route_times_of(page@)),
        strings_view(r.information@) == notices(journey_messages_of(page@)),
{
    let messages = journey_messages(page);
    let steps = route_times(page);
    let information = notices_of(&messages);
    let status = delay_status(&departure.time, &steps);
    DepartureDetail {
        time: departure.time.clone(),
        line: departure.line.clone(),
        direction: departure.direction.clone(),
        platform: clone_option(&departure.platform),
        status,
        information,
    }
}

} // verus!
