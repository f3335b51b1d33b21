use vstd::prelude::*;

verus! {

/// The pieces of `s` between occurrences of `sep`, as `str::split` gives them:
/// always at least one piece, empty pieces kept.
pub open spec fn split_on(s: Seq<char>, sep: char) -> Seq<Seq<char>>
    decreases s.len(),
{
    if s.len() == 0 {
        seq![Seq::<char>::empty()]
    } else {
        let rest = split_on(s.skip(1), sep);
        if s[0] == sep {
            seq![Seq::<char>::empty()] + rest
        } else {
            rest.update(0, seq![s[0]] + rest[0])
        }
    }
}

proof fn lemma_split_on_nonempty(s: Seq<char>, sep: char)
    ensures
        split_on(s, sep).len() >= 1,
    decreases s.len(),
{
    if s.len() > 0 {
        lemma_split_on_nonempty(s.skip(1), sep);
    }
}

/// Splits `s` at each `sep`.
pub fn split_chars(s: &str, sep: char) -> (r: Vec<String>)
    ensures
        r@.map_values(|t: String| t@) == split_on(s@, sep),
{
    let n = s.unicode_len();
    let mut toks: Vec<String> = Vec::new();
    let mut end: usize = n;
    let mut i: usize = n;
    assert(s@.skip(n as int) =~= Seq::<char>::empty());
    assert(s@.subrange(n as int, n as int) =~= Seq::<char>::empty());
    while i > 0
        invariant
            n == s@.len(),
            i <= end <= n,
            split_on(s@.skip(i as int), sep) == seq![s@.subrange(i as int, end as int)]
                + toks@.map_values(|t: String| t@),
        decreases i,
    {
        let ghost tail = s@.skip(i as int);
        let ghost old_toks = toks@.map_values(|t: String| t@);
        let c = s.get_char(i - 1);
        assert(s@.skip(i - 1).skip(1) =~= tail);
        assert(s@.skip(i - 1)[0] == c);
        if c == sep {
            let t = String::from_str(s.substring_char(i, end));
            toks.insert(0, t);
            assert(toks@.map_values(|t: String| t@) =~= seq![s@.subrange(i as int, end as int)]
                + old_toks);
            end = i - 1;
            assert(s@.subrange(end as int, end as int) =~= Seq::<char>::empty());
            assert(split_on(s@.skip(i - 1), sep) =~= seq![s@.subrange(end as int, end as int)]
                + toks@.map_values(|t: String| t@));
        } else {
            assert(seq![c] + s@.subrange(i as int, end as int) =~= s@.subrange(i - 1, end as int));
            assert(split_on(s@.skip(i - 1), sep) =~= seq![s@.subrange(i - 1, end as int)]
                + old_toks);
        }
        i = i - 1;
    }
    assert(s@.skip(0) =~= s@);
    let t = String::from_str(s.substring_char(0, end));
    let ghost old_toks = toks@.map_values(|t: String| t@);
    toks.insert(0, t);
    assert(toks@.map_values(|t: String| t@) =~= seq![s@.subrange(0, end as int)] + old_toks);
    toks
}

/// The page of the site that an address shows.
#[derive(Clone, Copy, Debug, PartialEq, Eq, Structural)]
pub enum Page {
    /// The root page, with the two comparison tables.
    Tables,
    /// The page of the live single-missile calculator.
    LiveCalculator,
    /// Any other page.
    Other,
}

/// The page named by the first path segment of an address (`scheme://host/<segment>`),
/// ignoring any query section.
pub open spec fn page_of(url: Seq<char>) -> Page {
    let segments = split_on(split_on(url, '?')[0], '/');
    if segments.len() > 3 && segments[3] == Seq::<char>::empty() {
        Page::Tables
    } else if segments.len() > 3 && segments[3] == "live_calc.html"@ {
        Page::LiveCalculator
    } else {
        Page::Other
    }
}

/// The page that `url` shows.
pub fn page_for(url: &str) -> (r: Page)
    ensures
        r == page_of(url@),
{
    let parts = split_chars(url, '?');
    proof {
        lemma_split_on_nonempty(url@, '?');
    }
    let segments = split_chars(parts[0].as_str(), '/');
    if segments.len() > 3 {
        let seg = segments[3].as_str();
        if seg.unicode_len() == 0 {
            assert(seg@ =~= Seq::<char>::empty());
            return Page::Tables;
        }
        let live = "live_calc.html";
        if string_eq(seg, live) {
            return Page::LiveCalculator;
        }
        assert(seg@ != Seq::<char>::empty());
    }
    Page::Other
}

fn string_eq(a: &str, b: &str) -> (r: bool)
    ensures
        r == (a@ == b@),
{
    let n = a.unicode_len();
    if n != b.unicode_len() {
        return false;
    }
    let mut k: usize = 0;
    while k < n
        invariant
            n == a@.len(),
            n == b@.len(),
            k <= n,
            a@.take(k as int) == b@.take(k as int),
        decreases n - k,
    {
        if a.get_char(k) != b.get_char(k) {
            return false;
        }
        assert(a@.take(k + 1) =~= a@.take(k as int).push(a@[k as int]));
        assert(b@.take(k + 1) =~= b@.take(k as int).push(b@[k as int]));
        k = k + 1;
    }
    assert(a@ =~= a@.take(n as int));
    assert(b@ =~= b@.take(n as int));
    true
}

/// A decimal digit.
pub open spec fn is_digit(c: char) -> bool {
    '0' <= c && c <= '9'
}

/// The value of a decimal digit.
pub open spec fn digit_value(c: char) -> int {
    (c as u32) - ('0' as u32)
}

/// The value of a string of decimal digits, most significant first.
pub open spec fn decimal_value(s: Seq<char>) -> int
    decreases s.len(),
{
    if s.len() == 0 {
        0
    } else {
        10 * decimal_value(s.drop_last()) + digit_value(s.last())
    }
}

/// `s` is what `u32::from_str` reads as a number, among texts with no `+`:
/// one or more digits whose value fits in a `u32`.
pub open spec fn is_u32_text(s: Seq<char>) -> bool {
    &&& s.len() > 0
    &&& forall|i: int| 0 <= i < s.len() ==> is_digit(#[trigger] s[i])
    &&& decimal_value(s) <= u32::MAX
}

proof fn lemma_decimal_value_grows(s: Seq<char>, k: int)
    requires
        0 <= k <= s.len(),
        forall|i: int| 0 <= i < s.len() ==> is_digit(#[trigger] s[i]),
    ensures
        decimal_value(s.take(k)) <= decimal_value(s),
        0 <= decimal_value(s.take(k)),
    decreases s.len(),
{
    if k < s.len() {
        assert(s.drop_last().take(k) =~= s.take(k));
        lemma_decimal_value_grows(s.drop_last(), k);
        lemma_decimal_value_grows(s.drop_last(), s.len() - 1);
        assert(s.drop_last().take(s.len() - 1) =~= s.drop_last());
    } else {
        assert(s.take(k) =~= s);
        if s.len() > 0 {
            lemma_decimal_value_grows(s.drop_last(), s.len() - 1);
            assert(s.drop_last().take(s.len() - 1) =~= s.drop_last());
        }
    }
}

/// Reads the digits of `s` from position `from` on as a `u32`, or `None` where
/// they are not `is_u32_text`.
pub fn parse_u32_from(s: &str, from: usize) -> (r: Option<u32>)
    requires
        from <= s@.len(),
    ensures
        r is Some <==> is_u32_text(s@.skip(from as int)),
        r is Some ==> r->0 == decimal_value(s@.skip(from as int)),
{
    let ghost t = s@.skip(from as int);
    let n = s.unicode_len();
    if from == n {
        return None;
    }
    let mut acc: u32 = 0;
    let mut i: usize = from;
    assert(t.take(0) =~= Seq::<char>::empty());
    while i < n
        invariant
            n == s@.len(),
            t == s@.skip(from as int),
            from <= i <= n,
            forall|k: int| 0 <= k < i - from ==> is_digit(#[trigger] t[k]),
            acc == decimal_value(t.take(i - from)),
        decreases n - i,
    {
        let c = s.get_char(i);
        assert(t[i - from] == c);
        if !('0' <= c && c <= '9') {
            return None;
        }
        let d = (c as u32) - ('0' as u32);
        assert(t.take(i - from + 1).drop_last() =~= t.take(i - from));
        if acc > 429496729 || (acc == 429496729 && d > 5) {
            proof {
                assert forall|k: int| 0 <= k < i - from + 1 implies is_digit(
                    #[trigger] t.take(i - from + 1)[k],
                ) by {}
                if is_u32_text(t) {
                    lemma_decimal_value_grows(t, i - from + 1);
                }
            }
            return None;
        }
        acc = acc * 10 + d;
        i = i + 1;
    }
    assert(t.take(n - from) =~= t);
    Some(acc)
}

/// Launch settings that an address's query section can override.
#[derive(Debug)]
pub struct LaunchQuery {
    /// Launch altitude in metres.
    pub altitude: u32,
    /// The decimal text of the start velocity in metres per second; `None` keeps
    /// the default start velocity.
    pub start_velocity: Option<String>,
}

/// What a `LaunchQuery` holds, as mathematical values.
pub struct LaunchQueryView {
    pub altitude: u32,
    pub start_velocity: Option<Seq<char>>,
}

impl View for LaunchQuery {
    type V = LaunchQueryView;

    open spec fn view(&self) -> LaunchQueryView {
        LaunchQueryView {
            altitude: self.altitude,
            start_velocity: match self.start_velocity {
                Some(v) => Some(v@),
                None => None,
            },
        }
    }
}

/// Why launch settings could not be read from an address.
#[derive(Clone, Copy, Debug, PartialEq, Eq, Structural)]
pub enum ConfigError {
    /// An `alt` token whose remainder is not an unsigned 32-bit integer.
    MalformedAltitude,
    /// A `vel` token whose remainder is not a decimal number.
    MalformedVelocity,
}

/// The settings when the address overrides nothing: altitude zero, default velocity.
pub open spec fn default_query() -> LaunchQueryView {
    LaunchQueryView { altitude: 0, start_velocity: None }
}

/// `t` begins with `prefix`.
pub open spec fn starts_with(t: Seq<char>, prefix: Seq<char>) -> bool {
    prefix.len() <= t.len() && t.take(prefix.len() as int) == prefix
}

/// The effect of one query token: `alt<N>` sets the altitude, `vel<F>` the start
/// velocity; any other token changes nothing.
pub open spec fn apply_token(q: LaunchQueryView, t: Seq<char>) -> Result<LaunchQueryView, ConfigError> {
    if starts_with(t, seq!['a', 'l', 't']) {
        if is_u32_text(t.skip(3)) {
            Ok(LaunchQueryView { altitude: decimal_value(t.skip(3)) as u32, ..q })
        } else {
            Err(ConfigError::MalformedAltitude)
        }
    } else if starts_with(t, seq!['v', 'e', 'l']) {
        Ok(LaunchQueryView { start_velocity: Some(t.skip(3)), ..q })
    } else {
        Ok(q)
    }
}

/// The effect of the tokens in turn; the first malformed one stops the reading.
pub open spec fn apply_tokens(q: LaunchQueryView, ts: Seq<Seq<char>>) -> Result<LaunchQueryView, ConfigError>
    decreases ts.len(),
{
    if ts.len() == 0 {
        Ok(q)
    } else {
        match apply_token(q, ts[0]) {
            Ok(q2) => apply_tokens(q2, ts.skip(1)),
            Err(e) => Err(e),
        }
    }
}

/// The `+`-separated tokens of the query section (after the first `?`, up to any
/// second one); none where the address has no `?`.
pub open spec fn query_tokens(url: Seq<char>) -> Seq<Seq<char>> {
    let parts = split_on(url, '?');
    if parts.len() > 1 {
        split_on(parts[1], '+')
    } else {
        seq![]
    }
}

/// The launch settings that an address asks for.
pub open spec fn launch_query_of(url: Seq<char>) -> Result<LaunchQueryView, ConfigError> {
    apply_tokens(default_query(), query_tokens(url))
}

/// An `alt` token.
pub open spec fn is_alt_token(t: Seq<char>) -> bool {
    starts_with(t, seq!['a', 'l', 't'])
}

/// A `vel` token.
pub open spec fn is_vel_token(t: Seq<char>) -> bool {
    starts_with(t, seq!['v', 'e', 'l'])
}

/// Every `alt` token of `ts` carries a valid number.
pub open spec fn alt_tokens_valid(ts: Seq<Seq<char>>) -> bool {
    forall|i: int| 0 <= i < ts.len() && is_alt_token(#[trigger] ts[i]) ==> is_u32_text(ts[i].skip(3))
}

/// The number of the last `alt` token of `ts`, or `a` where there is none.
pub open spec fn last_altitude(a: int, ts: Seq<Seq<char>>) -> int
    decreases ts.len(),
{
    if ts.len() == 0 {
        a
    } else if is_alt_token(ts.last()) {
        decimal_value(ts.last().skip(3))
    } else {
        last_altitude(a, ts.drop_last())
    }
}

/// The text of the last `vel` token of `ts`, or `v` where there is none.
pub open spec fn last_velocity(v: Option<Seq<char>>, ts: Seq<Seq<char>>) -> Option<Seq<char>>
    decreases ts.len(),
{
    if ts.len() == 0 {
        v
    } else if is_vel_token(ts.last()) {
        Some(ts.last().skip(3))
    } else {
        last_velocity(v, ts.drop_last())
    }
}

proof fn lemma_apply_tokens_push(q: LaunchQueryView, ts: Seq<Seq<char>>, t: Seq<char>)
    ensures
        apply_tokens(q, ts.push(t)) == match apply_tokens(q, ts) {
            Ok(q2) => apply_token(q2, t),
            Err(e) => Err(e),
        },
    decreases ts.len(),
{
    if ts.len() == 0 {
        assert(ts.push(t).skip(1) =~= Seq::<Seq<char>>::empty());
        assert(ts.push(t)[0] == t);
        assert(apply_tokens(q, ts) == Ok::<LaunchQueryView, ConfigError>(q));
        match apply_token(q, t) {
            Ok(q2) => {
                assert(apply_tokens(q2, Seq::<Seq<char>>::empty()) == Ok::<LaunchQueryView, ConfigError>(q2));
            },
            Err(e) => {},
        }
    } else {
        assert(ts.push(t).skip(1) =~= ts.skip(1).push(t));
        assert(ts.push(t)[0] == ts[0]);
        if let Ok(q2) = apply_token(q, ts[0]) {
            lemma_apply_tokens_push(q2, ts.skip(1), t);
        }
    }
}

/// Where every `alt` token carries a valid number, reading succeeds: the altitude
/// is the number of the last `alt` token and the start velocity the text of the
/// last `vel` token, and where there is no such token the starting value is left
/// untouched, whatever other tokens stand among them.
pub proof fn lemma_tokens_set_values(q: LaunchQueryView, ts: Seq<Seq<char>>)
    requires
        alt_tokens_valid(ts),
    ensures
        apply_tokens(q, ts) is Ok,
        apply_tokens(q, ts)->Ok_0.altitude == last_altitude(q.altitude as int, ts),
        apply_tokens(q, ts)->Ok_0.start_velocity == last_velocity(q.start_velocity, ts),
    decreases ts.len(),
{
    if ts.len() > 0 {
        let init = ts.drop_last();
        assert(init.push(ts.last()) =~= ts);
        assert forall|i: int| 0 <= i < init.len() && is_alt_token(#[trigger] init[i]) implies is_u32_text(
            init[i].skip(3),
        ) by {
            assert(init[i] == ts[i]);
        }
        lemma_tokens_set_values(q, init);
        lemma_apply_tokens_push(q, init, ts.last());
        if is_alt_token(ts.last()) {
            assert(is_alt_token(ts[ts.len() - 1]));
            let digits = ts.last().skip(3);
            lemma_decimal_value_grows(digits, digits.len() as int);
            assert(digits.take(digits.len() as int) =~= digits);
        }
    }
}

fn token_starts(t: &str, a: char, b: char, c: char) -> (r: bool)
    ensures
        r == starts_with(t@, seq![a, b, c]),
{
    if t.unicode_len() < 3 {
        return false;
    }
    let r = t.get_char(0) == a && t.get_char(1) == b && t.get_char(2) == c;
    assert(r == (t@.take(3) =~= seq![a, b, c]));
    r
}

fn apply_query_token(q: LaunchQuery, t: &str) -> (r: Result<LaunchQuery, ConfigError>)
    ensures
        match (r, apply_token(q@, t@)) {
            (Ok(a), Ok(b)) => a@ == b,
            (Err(a), Err(b)) => a == b,
            _ => false,
        },
{
    if token_starts(t, 'a', 'l', 't') {
        match parse_u32_from(t, 3) {
            Some(altitude) => Ok(LaunchQuery { altitude, ..q }),
            None => Err(ConfigError::MalformedAltitude),
        }
    } else if token_starts(t, 'v', 'e', 'l') {
        let v = String::from_str(t.substring_char(3, t.unicode_len()));
        assert(t@.subrange(3, t@.len() as int) =~= t@.skip(3));
        Ok(LaunchQuery { start_velocity: Some(v), ..q })
    } else {
        Ok(q)
    }
}

/// Reads the launch settings from an address: each `alt<N>` token of its query
/// section sets the altitude and each `vel<F>` token the text of the start
/// velocity, later tokens over earlier ones; other tokens are ignored. An `alt`
/// token whose remainder is not a `u32` is an error.
pub fn parse_launch_query(url: &str) -> (r: Result<LaunchQuery, ConfigError>)
    ensures
        match (r, launch_query_of(url@)) {
            (Ok(a), Ok(b)) => a@ == b,
            (Err(a), Err(b)) => a == b,
            _ => false,
        },
{
    let mut q = LaunchQuery { altitude: 0, start_velocity: None };
    let parts = split_chars(url, '?');
    if parts.len() <= 1 {
        return Ok(q);
    }
    let toks = split_chars(parts[1].as_str(), '+');
    let ghost ts = toks@.map_values(|t: String| t@);
    let mut k: usize = 0;
    assert(ts.skip(0) =~= ts);
    while k < toks.len()
        invariant
            ts == toks@.map_values(|t: String| t@),
            ts == query_tokens(url@),
            k <= toks@.len(),
            launch_query_of(url@) == apply_tokens(q@, ts.skip(k as int)),
        decreases toks@.len() - k,
    {
        assert(ts.skip(k as int)[0] == toks@[k as int]@);
        assert(ts.skip(k as int).skip(1) =~= ts.skip(k + 1));
        match apply_query_token(q, toks[k].as_str()) {
            Ok(q2) => {
                q = q2;
            },
            Err(e) => {
                return Err(e);
            },
        }
        k = k + 1;
    }
    Ok(q)
}

} // verus!
