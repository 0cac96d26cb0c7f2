//! The wire protocol: JSON encoding of outbound envelopes and parsing of
//! inbound ones.
//!
//! Both directions share one grammar, written down as spec functions over
//! character sequences: `json_*` gives the canonical text of each payload,
//! and the `take_*` / `parse_*` functions are its exact inverse, accepting
//! precisely the canonical frames and rejecting everything else. Every
//! executable encoder and parser is pinned to its spec twin.

use crate::game::{BodySegment, PlayerStateData, PlayerView, Seg};
use crate::grid::{in_bounds, Coord, Direction, PositionCoords, GRID_HEIGHT, GRID_OFFSET, GRID_WIDTH};
use vstd::prelude::*;

verus! {

/// Character-by-character string equality.
pub fn str_eq(a: &str, b: &str) -> (r: bool)
    ensures
        r == (a@ == b@),
{
    let na = a.unicode_len();
    let nb = b.unicode_len();
    if na != nb {
        assert(a@ != b@);
        return false;
    }
    let mut i: usize = 0;
    while i < na
        invariant
            i <= na,
            na == a@.len(),
            na == b@.len(),
            forall|k: int| 0 <= k < i ==> a@[k] == b@[k],
        decreases na - i,
    {
        if a.get_char(i) != b.get_char(i) {
            return false;
        }
        i = i + 1;
    }
    assert(a@ =~= b@);
    true
}

/// The characters of `v`, against a literal.
pub fn chars_eq_lit(v: &Vec<char>, lit: &str) -> (r: bool)
    ensures
        r == (v@ == lit@),
{
    let n = lit.unicode_len();
    if v.len() != n {
        assert(v@ != lit@);
        return false;
    }
    let mut i: usize = 0;
    while i < n
        invariant
            i <= n,
            n == v@.len(),
            n == lit@.len(),
            forall|k: int| 0 <= k < i ==> v@[k] == lit@[k],
        decreases n - i,
    {
        if v[i] != lit.get_char(i) {
            return false;
        }
        i = i + 1;
    }
    assert(v@ =~= lit@);
    true
}

/// The characters of a string, as an indexable vector.
pub fn chars_of(s: &str) -> (r: Vec<char>)
    ensures
        r@ == s@,
{
    let n = s.unicode_len();
    let mut v: Vec<char> = Vec::new();
    let mut i: usize = 0;
    while i < n
        invariant
            i <= n,
            n == s@.len(),
            v@ == s@.take(i as int),
        decreases n - i,
    {
        v.push(s.get_char(i));
        assert(v@ =~= s@.take(i + 1));
        i = i + 1;
    }
    assert(v@ =~= s@);
    v
}

/// Relies on String::push: appends exactly the one character.
#[verifier::external_body]
fn push_char(s: &mut String, c: char)
    ensures
        final(s)@ == old(s)@.push(c),
{
    s.push(c);
}

// ---------------------------------------------------------------------------
// Decimal numbers.
// ---------------------------------------------------------------------------

pub open spec fn spec_digit(d: int) -> char {
    if d == 0 {
        '0'
    } else if d == 1 {
        '1'
    } else if d == 2 {
        '2'
    } else if d == 3 {
        '3'
    } else if d == 4 {
        '4'
    } else if d == 5 {
        '5'
    } else if d == 6 {
        '6'
    } else if d == 7 {
        '7'
    } else if d == 8 {
        '8'
    } else {
        '9'
    }
}

/// The value of a digit character, `-1` for any other character.
pub open spec fn digit_val(c: char) -> int {
    if c == '0' {
        0
    } else if c == '1' {
        1
    } else if c == '2' {
        2
    } else if c == '3' {
        3
    } else if c == '4' {
        4
    } else if c == '5' {
        5
    } else if c == '6' {
        6
    } else if c == '7' {
        7
    } else if c == '8' {
        8
    } else if c == '9' {
        9
    } else {
        -1
    }
}

/// The canonical decimal digits of `n`: no sign, no leading zero.
pub open spec fn spec_dec(n: nat) -> Seq<char>
    decreases n,
{
    if n < 10 {
        seq![spec_digit(n as int)]
    } else {
        spec_dec(n / 10).push(spec_digit((n % 10) as int))
    }
}

fn digit_str(d: u64) -> (r: &'static str)
    requires
        d < 10,
    ensures
        r@ == seq![spec_digit(d as int)],
{
    proof {
        reveal_strlit("0");
        reveal_strlit("1");
        reveal_strlit("2");
        reveal_strlit("3");
        reveal_strlit("4");
        reveal_strlit("5");
        reveal_strlit("6");
        reveal_strlit("7");
        reveal_strlit("8");
        reveal_strlit("9");
    }
    match d {
        0 => {
            assert("0"@ =~= seq![spec_digit(0)]);
            "0"
        },
        1 => {
            assert("1"@ =~= seq![spec_digit(1)]);
            "1"
        },
        2 => {
            assert("2"@ =~= seq![spec_digit(2)]);
            "2"
        },
        3 => {
            assert("3"@ =~= seq![spec_digit(3)]);
            "3"
        },
        4 => {
            assert("4"@ =~= seq![spec_digit(4)]);
            "4"
        },
        5 => {
            assert("5"@ =~= seq![spec_digit(5)]);
            "5"
        },
        6 => {
            assert("6"@ =~= seq![spec_digit(6)]);
            "6"
        },
        7 => {
            assert("7"@ =~= seq![spec_digit(7)]);
            "7"
        },
        8 => {
            assert("8"@ =~= seq![spec_digit(8)]);
            "8"
        },
        _ => {
            assert("9"@ =~= seq![spec_digit(9)]);
            "9"
        },
    }
}

/// The canonical decimal text of `n`.
pub fn u64_to_string(n: u64) -> (r: String)
    ensures
        r@ == spec_dec(n as nat),
    decreases n,
{
    if n < 10 {
        let mut s = String::new();
        s.append(digit_str(n));
        assert(s@ =~= spec_dec(n as nat));
        s
    } else {
        let mut s = u64_to_string(n / 10);
        s.append(digit_str(n % 10));
        assert(s@ =~= spec_dec(n as nat));
        s
    }
}

// ---------------------------------------------------------------------------
// String escaping: a nested payload travels inside a JSON string, with
// quotes and backslashes escaped.
// ---------------------------------------------------------------------------

pub open spec fn spec_escape(m: Seq<char>) -> Seq<char>
    decreases m.len(),
{
    if m.len() == 0 {
        Seq::<char>::empty()
    } else {
        let c = m[0];
        (if c == '"' || c == '\\' {
            seq!['\\', c]
        } else {
            seq![c]
        }) + spec_escape(m.subrange(1, m.len() as int))
    }
}

fn escape_from(s: &str, n: usize, i: usize) -> (r: String)
    requires
        n == s@.len(),
        i <= n,
    ensures
        r@ == spec_escape(s@.skip(i as int)),
    decreases n - i,
{
    if i == n {
        let r = String::new();
        assert(s@.skip(i as int) =~= Seq::<char>::empty());
        r
    } else {
        let c = s.get_char(i);
        let rest = escape_from(s, n, i + 1);
        let mut r = String::new();
        if c == '"' || c == '\\' {
            push_char(&mut r, '\\');
        }
        push_char(&mut r, c);
        r.append(rest.as_str());
        proof {
            let m = s@.skip(i as int);
            assert(m[0] == s@[i as int]);
            assert(m.subrange(1, m.len() as int) =~= s@.skip(i as int + 1));
            assert(r@ =~= spec_escape(m));
        }
        r
    }
}

/// `m` with every quote and backslash escaped.
pub fn escape_str(s: &str) -> (r: String)
    ensures
        r@ == spec_escape(s@),
{
    let n = s.unicode_len();
    let r = escape_from(s, n, 0);
    assert(s@.skip(0) =~= s@);
    r
}

// ---------------------------------------------------------------------------
// The canonical grammar of each payload and of the envelope.
// ---------------------------------------------------------------------------

pub open spec fn json_direction(d: Direction) -> Seq<char> {
    match d {
        Direction::UP => "UP"@,
        Direction::DOWN => "DOWN"@,
        Direction::LEFT => "LEFT"@,
        Direction::RIGHT => "RIGHT"@,
    }
}

pub open spec fn json_coord(c: Coord) -> Seq<char> {
    "{\"x\":"@ + spec_dec(c.x as nat) + ",\"y\":"@ + spec_dec(c.y as nat) + "}"@
}

pub open spec fn json_segment(g: Seg) -> Seq<char> {
    "{\"x\":"@ + spec_dec(g.x as nat) + ",\"y\":"@ + spec_dec(g.y as nat) + ",\"direction\":\""@
        + json_direction(g.direction) + "\"}"@
}

pub open spec fn json_segments_from(ss: Seq<Seg>, i: int) -> Seq<char>
    decreases ss.len() - i,
{
    if i < 0 || i >= ss.len() {
        Seq::<char>::empty()
    } else if i == ss.len() - 1 {
        json_segment(ss[i])
    } else {
        json_segment(ss[i]) + ","@ + json_segments_from(ss, i + 1)
    }
}

pub open spec fn json_player(p: PlayerView) -> Seq<char> {
    "{\"player_id\":"@ + spec_dec(p.player_id as nat) + ",\"body_segments\":["@
        + json_segments_from(p.segments, 0) + "]}"@
}

pub open spec fn json_players_from(ps: Seq<PlayerView>, i: int) -> Seq<char>
    decreases ps.len() - i,
{
    if i < 0 || i >= ps.len() {
        Seq::<char>::empty()
    } else if i == ps.len() - 1 {
        json_player(ps[i])
    } else {
        json_player(ps[i]) + ","@ + json_players_from(ps, i + 1)
    }
}

pub open spec fn json_player_states(ps: Seq<PlayerView>) -> Seq<char> {
    "["@ + json_players_from(ps, 0) + "]"@
}

pub open spec fn json_coords_from(cs: Seq<Coord>, i: int) -> Seq<char>
    decreases cs.len() - i,
{
    if i < 0 || i >= cs.len() {
        Seq::<char>::empty()
    } else if i == cs.len() - 1 {
        json_coord(cs[i])
    } else {
        json_coord(cs[i]) + ","@ + json_coords_from(cs, i + 1)
    }
}

pub open spec fn json_map_state(cs: Seq<Coord>) -> Seq<char> {
    "{\"food_positions\":["@ + json_coords_from(cs, 0) + "]}"@
}

/// The envelope both directions share: a type tag, the player identity, and
/// a nested payload carried as an escaped JSON string.
pub open spec fn json_envelope(ty: Seq<char>, id: nat, msg: Seq<char>) -> Seq<char> {
    "{\"message_type\":\""@ + spec_escape(ty) + "\",\"player_id\":"@ + spec_dec(id)
        + ",\"message\":\""@ + spec_escape(msg) + "\"}"@
}

// ---------------------------------------------------------------------------
// Encoders.
// ---------------------------------------------------------------------------

fn direction_str(d: Direction) -> (r: &'static str)
    ensures
        r@ == json_direction(d),
{
    match d {
        Direction::UP => "UP",
        Direction::DOWN => "DOWN",
        Direction::LEFT => "LEFT",
        Direction::RIGHT => "RIGHT",
    }
}

/// The canonical text of one coordinate pair.
pub fn encode_coord(p: PositionCoords) -> (r: String)
    requires
        0 <= p.x,
        0 <= p.y,
    ensures
        r@ == json_coord(p@),
{
    let mut s = String::new();
    s.append("{\"x\":");
    s.append(u64_to_string(p.x as u64).as_str());
    s.append(",\"y\":");
    s.append(u64_to_string(p.y as u64).as_str());
    s.append("}");
    assert(s@ =~= json_coord(p@));
    s
}

fn encode_segment(g: &BodySegment) -> (r: String)
    requires
        0 <= g.x,
        0 <= g.y,
    ensures
        r@ == json_segment(g@),
{
    let mut s = String::new();
    s.append("{\"x\":");
    s.append(u64_to_string(g.x as u64).as_str());
    s.append(",\"y\":");
    s.append(u64_to_string(g.y as u64).as_str());
    s.append(",\"direction\":\"");
    s.append(direction_str(g.direction));
    s.append("\"}");
    assert(s@ =~= json_segment(g@));
    s
}

fn encode_segments_from(segs: &Vec<BodySegment>, i: usize) -> (r: String)
    requires
        i <= segs@.len(),
        forall|k: int| 0 <= k < segs@.len() ==> 0 <= #[trigger] segs@[k].x && 0 <= segs@[k].y,
    ensures
        r@ == json_segments_from(segs.deep_view(), i as int),
    decreases segs@.len() - i,
{
    let n = segs.len();
    if i >= n {
        String::new()
    } else if i == n - 1 {
        encode_segment(&segs[i])
    } else {
        let mut s = encode_segment(&segs[i]);
        s.append(",");
        s.append(encode_segments_from(segs, i + 1).as_str());
        assert(s@ =~= json_segments_from(segs.deep_view(), i as int));
        s
    }
}

/// The canonical text of one player's state.
pub fn encode_player_state(data: &PlayerStateData) -> (r: String)
    requires
        forall|k: int|
            0 <= k < data.body_segments@.len() ==> 0 <= #[trigger] data.body_segments@[k].x && 0
                <= data.body_segments@[k].y,
    ensures
        r@ == json_player(data.deep_view()),
{
    let mut s = String::new();
    s.append("{\"player_id\":");
    s.append(u64_to_string(data.player_id).as_str());
    s.append(",\"body_segments\":[");
    s.append(encode_segments_from(&data.body_segments, 0).as_str());
    s.append("]}");
    assert(s@ =~= json_player(data.deep_view()));
    s
}

/// The canonical envelope around an already-encoded payload.
pub fn encode_envelope(message_type: &str, player_id: u64, message: &str) -> (r: String)
    ensures
        r@ == json_envelope(message_type@, player_id as nat, message@),
{
    let mut s = String::new();
    s.append("{\"message_type\":\"");
    s.append(escape_str(message_type).as_str());
    s.append("\",\"player_id\":");
    s.append(u64_to_string(player_id).as_str());
    s.append(",\"message\":\"");
    s.append(escape_str(message).as_str());
    s.append("\"}");
    assert(s@ =~= json_envelope(message_type@, player_id as nat, message@));
    s
}

/// The full `player_state` frame owed after a tick under an assigned
/// identity.
pub fn encode_player_data(player_id: u64, player_data: &PlayerStateData) -> (r: String)
    requires
        forall|k: int|
            0 <= k < player_data.body_segments@.len() ==> 0 <= #[trigger] player_data.body_segments@[k].x
                && 0 <= player_data.body_segments@[k].y,
    ensures
        r@ == json_envelope(
            "player_state"@,
            player_id as nat,
            json_player(player_data.deep_view()),
        ),
{
    let payload = encode_player_state(player_data);
    encode_envelope("player_state", player_id, payload.as_str())
}

/// The full `eat_food` frame owed when the head stands on food.
pub fn encode_eat_food_message(player_id: u64, food_position: PositionCoords) -> (r: String)
    requires
        0 <= food_position.x,
        0 <= food_position.y,
    ensures
        r@ == json_envelope("eat_food"@, player_id as nat, json_coord(food_position@)),
{
    let payload = encode_coord(food_position);
    encode_envelope("eat_food", player_id, payload.as_str())
}

// ---------------------------------------------------------------------------
// Parsing: the exact inverse of the canonical grammar. Each parser consumes
// from index `i` and returns the parsed value with the next index; a frame
// is accepted only if it is the canonical text of some value.
// ---------------------------------------------------------------------------

pub open spec fn spec_take_lit(s: Seq<char>, i: int, lit: Seq<char>) -> Option<int> {
    if 0 <= i && i + lit.len() <= s.len() && s.subrange(i, i + lit.len()) == lit {
        Some(i + lit.len())
    } else {
        None
    }
}

/// The end of the run of digit characters starting at `i`.
pub open spec fn digit_run_end(s: Seq<char>, i: int) -> int
    decreases s.len() - i,
{
    if 0 <= i && i < s.len() && digit_val(s[i]) >= 0 {
        digit_run_end(s, i + 1)
    } else {
        i
    }
}

/// The numeric value of a sequence of digit characters.
pub open spec fn val_digits(ds: Seq<char>) -> int
    decreases ds.len(),
{
    if ds.len() == 0 {
        0
    } else {
        val_digits(ds.drop_last()) * 10 + digit_val(ds.last())
    }
}

/// A canonical decimal number: at least one digit, no leading zero, and a
/// value that fits in a u64.
pub open spec fn spec_take_u64(s: Seq<char>, i: int) -> Option<(u64, int)> {
    let j = digit_run_end(s, i);
    if j == i {
        None
    } else if s[i] == '0' && j > i + 1 {
        None
    } else if val_digits(s.subrange(i, j)) > u64::MAX {
        None
    } else {
        Some((val_digits(s.subrange(i, j)) as u64, j))
    }
}

/// The body of a JSON string up to and including its closing quote, with
/// escaped quotes and backslashes folded back to themselves.
pub open spec fn spec_take_str_content(s: Seq<char>, i: int) -> Option<(Seq<char>, int)>
    decreases s.len() - i,
{
    if i < 0 || i >= s.len() {
        None
    } else if s[i] == '"' {
        Some((Seq::<char>::empty(), i + 1))
    } else if s[i] == '\\' {
        if i + 2 <= s.len() && (s[i + 1] == '"' || s[i + 1] == '\\') {
            match spec_take_str_content(s, i + 2) {
                Some((c, j)) => Some((seq![s[i + 1]] + c, j)),
                None => None,
            }
        } else {
            None
        }
    } else {
        match spec_take_str_content(s, i + 1) {
            Some((c, j)) => Some((seq![s[i]] + c, j)),
            None => None,
        }
    }
}

proof fn lemma_val_digits_nonneg(ds: Seq<char>)
    requires
        forall|k: int| 0 <= k < ds.len() ==> digit_val(#[trigger] ds[k]) >= 0,
    ensures
        val_digits(ds) >= 0,
    decreases ds.len(),
{
    if ds.len() > 0 {
        let dd = ds.drop_last();
        assert forall|k: int| 0 <= k < dd.len() implies digit_val(#[trigger] dd[k]) >= 0 by {
            assert(dd[k] == ds[k]);
        }
        lemma_val_digits_nonneg(dd);
    }
}

proof fn lemma_val_digits_take_succ(ds: Seq<char>, m: int)
    requires
        0 <= m < ds.len(),
    ensures
        val_digits(ds.take(m + 1)) == val_digits(ds.take(m)) * 10 + digit_val(ds[m]),
{
    assert(ds.take(m + 1).drop_last() =~= ds.take(m));
    assert(ds.take(m + 1).last() == ds[m]);
}

proof fn lemma_val_digits_prefix(ds: Seq<char>, m: int)
    requires
        0 <= m <= ds.len(),
        forall|k: int| 0 <= k < ds.len() ==> digit_val(#[trigger] ds[k]) >= 0,
    ensures
        val_digits(ds) >= val_digits(ds.take(m)),
    decreases ds.len() - m,
{
    if m < ds.len() {
        lemma_val_digits_take_succ(ds, m);
        let tm = ds.take(m);
        assert forall|k: int| 0 <= k < tm.len() implies digit_val(#[trigger] tm[k]) >= 0 by {
            assert(tm[k] == ds[k]);
        }
        lemma_val_digits_nonneg(tm);
        assert(val_digits(ds.take(m + 1)) >= val_digits(ds.take(m)));
        lemma_val_digits_prefix(ds, m + 1);
    } else {
        assert(ds.take(m) =~= ds);
    }
}

proof fn lemma_digit_run_end(s: Seq<char>, i: int, j: int)
    requires
        0 <= i <= j <= s.len(),
        forall|k: int| i <= k < j ==> digit_val(#[trigger] s[k]) >= 0,
        j == s.len() || digit_val(s[j]) < 0,
    ensures
        digit_run_end(s, i) == j,
    decreases j - i,
{
    if i < j {
        lemma_digit_run_end(s, i + 1, j);
    }
}

fn char_digit(c: char) -> (r: i8)
    ensures
        r as int == digit_val(c),
{
    match c {
        '0' => 0,
        '1' => 1,
        '2' => 2,
        '3' => 3,
        '4' => 4,
        '5' => 5,
        '6' => 6,
        '7' => 7,
        '8' => 8,
        '9' => 9,
        _ => -1,
    }
}

/// Consumes `lit` at `i`.
pub fn take_lit(v: &Vec<char>, i: usize, lit: &str) -> (r: Option<usize>)
    requires
        i <= v@.len(),
    ensures
        match r {
            Some(j) => spec_take_lit(v@, i as int, lit@) == Some(j as int) && i <= j <= v@.len()
                && j == i + lit@.len(),
            None => spec_take_lit(v@, i as int, lit@) is None,
        },
{
    let n = lit.unicode_len();
    if v.len() - i < n {
        return None;
    }
    let mut k: usize = 0;
    while k < n
        invariant
            k <= n,
            n == lit@.len(),
            i + n <= v@.len(),
            v@.len() <= usize::MAX,
            forall|l: int| 0 <= l < k ==> v@[i + l] == lit@[l],
        decreases n - k,
    {
        if v[i + k] != lit.get_char(k) {
            proof {
                assert(v@.subrange(i as int, i + n)[k as int] != lit@[k as int]);
            }
            return None;
        }
        k = k + 1;
    }
    assert(v@.subrange(i as int, i + n) =~= lit@);
    Some(i + n)
}

/// Consumes a canonical decimal u64 at `i`.
#[verifier::rlimit(50)]
pub fn take_u64(v: &Vec<char>, i: usize) -> (r: Option<(u64, usize)>)
    requires
        i <= v@.len(),
    ensures
        match r {
            Some((x, j)) => spec_take_u64(v@, i as int) == Some((x, j as int)) && i < j
                <= v@.len(),
            None => spec_take_u64(v@, i as int) is None,
        },
{
    let n = v.len();
    let mut j: usize = i;
    while j < n && char_digit(v[j]) >= 0
        invariant
            i <= j <= n,
            n == v@.len(),
            forall|k: int| i <= k < j ==> digit_val(#[trigger] v@[k]) >= 0,
        decreases n - j,
    {
        j = j + 1;
    }
    proof {
        lemma_digit_run_end(v@, i as int, j as int);
    }
    if j == i {
        return None;
    }
    if v[i] == '0' && j > i + 1 {
        return None;
    }
    let ghost ds = v@.subrange(i as int, j as int);
    let mut acc: u64 = 0;
    let mut k: usize = i;
    while k < j
        invariant
            i < j,
            i <= k <= j <= n,
            n == v@.len(),
            ds == v@.subrange(i as int, j as int),
            ds.len() == j - i,
            digit_run_end(v@, i as int) == j,
            !(v@[i as int] == '0' && j > i + 1),
            forall|l: int| i <= l < j ==> digit_val(#[trigger] v@[l]) >= 0,
            forall|l: int| 0 <= l < ds.len() ==> digit_val(#[trigger] ds[l]) >= 0,
            acc as int == val_digits(ds.take(k - i)),
        decreases j - k,
    {
        let d = char_digit(v[k]);
        assert(ds[k - i] == v@[k as int]);
        assert(0 <= d <= 9);
        let du = d as u64;
        proof {
            lemma_val_digits_take_succ(ds, k - i);
        }
        if acc > (u64::MAX - du) / 10 {
            proof {
                let m = u64::MAX as int;
                let a = acc as int;
                let dd = du as int;
                assert((m - dd) / 10 * 10 + (m - dd) % 10 == m - dd);
                assert(a * 10 >= ((m - dd) / 10 + 1) * 10);
                assert(a * 10 + dd > m);
                assert(val_digits(ds.take(k - i + 1)) > u64::MAX);
                lemma_val_digits_prefix(ds, k - i + 1);
                assert(ds.take(ds.len() as int) =~= ds);
                assert(val_digits(ds) > u64::MAX);
            }
            return None;
        }
        proof {
            let m = u64::MAX as int;
            let a = acc as int;
            let dd = du as int;
            assert((m - dd) / 10 * 10 + (m - dd) % 10 == m - dd);
            assert(a * 10 <= (m - dd) / 10 * 10);
            assert(a * 10 + dd <= m);
        }
        acc = acc * 10 + du;
        k = k + 1;
    }
    assert(ds.take(ds.len() as int) =~= ds);
    Some((acc, j))
}

/// Consumes a JSON string body, unescaping it, up to and including the
/// closing quote.
pub fn take_str_content(v: &Vec<char>, i: usize) -> (r: Option<(Vec<char>, usize)>)
    requires
        i <= v@.len(),
    ensures
        match r {
            Some((c, j)) => spec_take_str_content(v@, i as int) == Some((c@, j as int)) && i < j
                <= v@.len(),
            None => spec_take_str_content(v@, i as int) is None,
        },
    decreases v@.len() - i,
{
    let n = v.len();
    if i >= n {
        return None;
    }
    let c = v[i];
    if c == '"' {
        let empty: Vec<char> = Vec::new();
        assert(empty@ =~= Seq::<char>::empty());
        return Some((empty, i + 1));
    }
    if c == '\\' {
        if i + 1 < n {
            let c2 = v[i + 1];
            if c2 == '"' || c2 == '\\' {
                match take_str_content(v, i + 2) {
                    Some((rest, j)) => {
                        let mut out = rest;
                        out.insert(0, c2);
                        assert(out@ =~= seq![v@[i as int + 1]] + out@.subrange(
                            1,
                            out@.len() as int,
                        ));
                        return Some((out, j));
                    },
                    None => {
                        return None;
                    },
                }
            }
        }
        return None;
    }
    match take_str_content(v, i + 1) {
        Some((rest, j)) => {
            let mut out = rest;
            out.insert(0, c);
            assert(out@ =~= seq![v@[i as int]] + out@.subrange(1, out@.len() as int));
            Some((out, j))
        },
        None => None,
    }
}

pub open spec fn spec_take_direction(s: Seq<char>, i: int) -> Option<(Direction, int)> {
    match spec_take_lit(s, i, "UP\""@) {
        Some(j) => Some((Direction::UP, j)),
        None => match spec_take_lit(s, i, "DOWN\""@) {
            Some(j) => Some((Direction::DOWN, j)),
            None => match spec_take_lit(s, i, "LEFT\""@) {
                Some(j) => Some((Direction::LEFT, j)),
                None => match spec_take_lit(s, i, "RIGHT\""@) {
                    Some(j) => Some((Direction::RIGHT, j)),
                    None => None,
                },
            },
        },
    }
}

/// Consumes a heading name and the quote that closes it.
pub fn take_direction(v: &Vec<char>, i: usize) -> (r: Option<(Direction, usize)>)
    requires
        i <= v@.len(),
    ensures
        match r {
            Some((d, j)) => spec_take_direction(v@, i as int) == Some((d, j as int)) && i <= j
                <= v@.len(),
            None => spec_take_direction(v@, i as int) is None,
        },
{
    match take_lit(v, i, "UP\"") {
        Some(j) => Some((Direction::UP, j)),
        None => match take_lit(v, i, "DOWN\"") {
            Some(j) => Some((Direction::DOWN, j)),
            None => match take_lit(v, i, "LEFT\"") {
                Some(j) => Some((Direction::LEFT, j)),
                None => match take_lit(v, i, "RIGHT\"") {
                    Some(j) => Some((Direction::RIGHT, j)),
                    None => None,
                },
            },
        },
    }
}

pub open spec fn spec_take_coord(s: Seq<char>, i: int) -> Option<(Coord, int)> {
    match spec_take_lit(s, i, "{\"x\":"@) {
        None => None,
        Some(j1) => match spec_take_u64(s, j1) {
            None => None,
            Some((x, j2)) => if x as int >= GRID_WIDTH + GRID_OFFSET {
                None
            } else {
                match spec_take_lit(s, j2, ",\"y\":"@) {
                    None => None,
                    Some(j3) => match spec_take_u64(s, j3) {
                        None => None,
                        Some((y, j4)) => if y as int >= GRID_HEIGHT + GRID_OFFSET {
                            None
                        } else {
                            match spec_take_lit(s, j4, "}"@) {
                                None => None,
                                Some(j5) => Some((Coord { x: x as int, y: y as int }, j5)),
                            }
                        },
                    },
                }
            },
        },
    }
}

/// Consumes one coordinate pair; only on-grid coordinates are accepted.
pub fn take_coord(v: &Vec<char>, i: usize) -> (r: Option<(PositionCoords, usize)>)
    requires
        i <= v@.len(),
    ensures
        match r {
            Some((p, j)) => spec_take_coord(v@, i as int) == Some((p@, j as int)) && i < j
                <= v@.len() && in_bounds(p@),
            None => spec_take_coord(v@, i as int) is None,
        },
{
    let j1 = match take_lit(v, i, "{\"x\":") {
        Some(j) => j,
        None => {
            return None;
        },
    };
    let (x, j2) = match take_u64(v, j1) {
        Some(p) => p,
        None => {
            return None;
        },
    };
    if x >= (GRID_WIDTH + GRID_OFFSET) as u64 {
        return None;
    }
    let j3 = match take_lit(v, j2, ",\"y\":") {
        Some(j) => j,
        None => {
            return None;
        },
    };
    let (y, j4) = match take_u64(v, j3) {
        Some(p) => p,
        None => {
            return None;
        },
    };
    if y >= (GRID_HEIGHT + GRID_OFFSET) as u64 {
        return None;
    }
    let j5 = match take_lit(v, j4, "}") {
        Some(j) => j,
        None => {
            return None;
        },
    };
    Some((PositionCoords { x: x as i8, y: y as i8 }, j5))
}

pub open spec fn spec_take_segment(s: Seq<char>, i: int) -> Option<(Seg, int)> {
    match spec_take_lit(s, i, "{\"x\":"@) {
        None => None,
        Some(j1) => match spec_take_u64(s, j1) {
            None => None,
            Some((x, j2)) => if x as int >= GRID_WIDTH + GRID_OFFSET {
                None
            } else {
                match spec_take_lit(s, j2, ",\"y\":"@) {
                    None => None,
                    Some(j3) => match spec_take_u64(s, j3) {
                        None => None,
                        Some((y, j4)) => if y as int >= GRID_HEIGHT + GRID_OFFSET {
                            None
                        } else {
                            match spec_take_lit(s, j4, ",\"direction\":\""@) {
                                None => None,
                                Some(j5) => match spec_take_direction(s, j5) {
                                    None => None,
                                    Some((d, j6)) => match spec_take_lit(s, j6, "}"@) {
                                        None => None,
                                        Some(j7) => Some(
                                            (Seg { x: x as int, y: y as int, direction: d }, j7),
                                        ),
                                    },
                                },
                            }
                        },
                    },
                }
            },
        },
    }
}

/// Consumes one body segment; only on-grid coordinates are accepted.
pub fn take_segment(v: &Vec<char>, i: usize) -> (r: Option<(BodySegment, usize)>)
    requires
        i <= v@.len(),
    ensures
        match r {
            Some((g, j)) => spec_take_segment(v@, i as int) == Some((g@, j as int)) && i < j
                <= v@.len(),
            None => spec_take_segment(v@, i as int) is None,
        },
{
    let j1 = match take_lit(v, i, "{\"x\":") {
        Some(j) => j,
        None => {
            return None;
        },
    };
    let (x, j2) = match take_u64(v, j1) {
        Some(p) => p,
        None => {
            return None;
        },
    };
    if x >= (GRID_WIDTH + GRID_OFFSET) as u64 {
        return None;
    }
    let j3 = match take_lit(v, j2, ",\"y\":") {
        Some(j) => j,
        None => {
            return None;
        },
    };
    let (y, j4) = match take_u64(v, j3) {
        Some(p) => p,
        None => {
            return None;
        },
    };
    if y >= (GRID_HEIGHT + GRID_OFFSET) as u64 {
        return None;
    }
    let j5 = match take_lit(v, j4, ",\"direction\":\"") {
        Some(j) => j,
        None => {
            return None;
        },
    };
    let (d, j6) = match take_direction(v, j5) {
        Some(p) => p,
        None => {
            return None;
        },
    };
    let j7 = match take_lit(v, j6, "}") {
        Some(j) => j,
        None => {
            return None;
        },
    };
    Some((BodySegment { x: x as i8, y: y as i8, direction: d }, j7))
}

pub open spec fn spec_take_segments_rest(s: Seq<char>, i: int) -> Option<(Seq<Seg>, int)>
    decreases s.len() - i,
{
    match spec_take_segment(s, i) {
        None => None,
        Some((g, j)) => match spec_take_lit(s, j, "]"@) {
            Some(k) => Some((seq![g], k)),
            None => match spec_take_lit(s, j, ","@) {
                None => None,
                Some(k) => if k <= i || k > s.len() {
                    None
                } else {
                    match spec_take_segments_rest(s, k) {
                        None => None,
                        Some((gs, l)) => Some((seq![g] + gs, l)),
                    }
                },
            },
        },
    }
}

/// A segment list after its opening bracket: either an immediate `]` or
/// comma-separated segments up to and including the `]`.
pub open spec fn spec_take_segments(s: Seq<char>, i: int) -> Option<(Seq<Seg>, int)> {
    match spec_take_lit(s, i, "]"@) {
        Some(j) => Some((Seq::<Seg>::empty(), j)),
        None => spec_take_segments_rest(s, i),
    }
}

fn take_segments_rest(v: &Vec<char>, i: usize) -> (r: Option<(Vec<BodySegment>, usize)>)
    requires
        i <= v@.len(),
    ensures
        match r {
            Some((gs, j)) => spec_take_segments_rest(v@, i as int) == Some(
                (gs.deep_view(), j as int),
            ) && i < j <= v@.len(),
            None => spec_take_segments_rest(v@, i as int) is None,
        },
    decreases v@.len() - i,
{
    let (g, j) = match take_segment(v, i) {
        Some(p) => p,
        None => {
            return None;
        },
    };
    match take_lit(v, j, "]") {
        Some(k) => {
            let mut gs: Vec<BodySegment> = Vec::new();
            gs.push(g);
            assert(gs.deep_view() =~= seq![g@]);
            Some((gs, k))
        },
        None => {
            let k = match take_lit(v, j, ",") {
                Some(k) => k,
                None => {
                    return None;
                },
            };
            if k <= i {
                return None;
            }
            match take_segments_rest(v, k) {
                None => None,
                Some((rest, l)) => {
                    let mut gs = rest;
                    gs.insert(0, g);
                    assert(gs.deep_view() =~= seq![g@] + gs.deep_view().subrange(
                        1,
                        gs.deep_view().len() as int,
                    ));
                    Some((gs, l))
                },
            }
        },
    }
}

/// Consumes a segment list after its opening bracket.
pub fn take_segments(v: &Vec<char>, i: usize) -> (r: Option<(Vec<BodySegment>, usize)>)
    requires
        i <= v@.len(),
    ensures
        match r {
            Some((gs, j)) => spec_take_segments(v@, i as int) == Some(
                (gs.deep_view(), j as int),
            ) && i <= j <= v@.len(),
            None => spec_take_segments(v@, i as int) is None,
        },
{
    match take_lit(v, i, "]") {
        Some(j) => {
            let gs: Vec<BodySegment> = Vec::new();
            assert(gs.deep_view() =~= Seq::<Seg>::empty());
            Some((gs, j))
        },
        None => take_segments_rest(v, i),
    }
}

pub open spec fn spec_take_player(s: Seq<char>, i: int) -> Option<(PlayerView, int)> {
    match spec_take_lit(s, i, "{\"player_id\":"@) {
        None => None,
        Some(j1) => match spec_take_u64(s, j1) {
            None => None,
            Some((id, j2)) => match spec_take_lit(s, j2, ",\"body_segments\":["@) {
                None => None,
                Some(j3) => match spec_take_segments(s, j3) {
                    None => None,
                    Some((gs, j4)) => match spec_take_lit(s, j4, "}"@) {
                        None => None,
                        Some(j5) => Some(
                            (PlayerView { player_id: id as int, segments: gs }, j5),
                        ),
                    },
                },
            },
        },
    }
}

/// Consumes one player's reported state.
pub fn take_player(v: &Vec<char>, i: usize) -> (r: Option<(PlayerStateData, usize)>)
    requires
        i <= v@.len(),
    ensures
        match r {
            Some((p, j)) => spec_take_player(v@, i as int) == Some((p.deep_view(), j as int))
                && i < j <= v@.len(),
            None => spec_take_player(v@, i as int) is None,
        },
{
    let j1 = match take_lit(v, i, "{\"player_id\":") {
        Some(j) => j,
        None => {
            return None;
        },
    };
    let (id, j2) = match take_u64(v, j1) {
        Some(p) => p,
        None => {
            return None;
        },
    };
    let j3 = match take_lit(v, j2, ",\"body_segments\":[") {
        Some(j) => j,
        None => {
            return None;
        },
    };
    let (gs, j4) = match take_segments(v, j3) {
        Some(p) => p,
        None => {
            return None;
        },
    };
    let j5 = match take_lit(v, j4, "}") {
        Some(j) => j,
        None => {
            return None;
        },
    };
    Some((PlayerStateData { player_id: id, body_segments: gs }, j5))
}

pub open spec fn spec_take_players_rest(s: Seq<char>, i: int) -> Option<(Seq<PlayerView>, int)>
    decreases s.len() - i,
{
    match spec_take_player(s, i) {
        None => None,
        Some((p, j)) => match spec_take_lit(s, j, "]"@) {
            Some(k) => Some((seq![p], k)),
            None => match spec_take_lit(s, j, ","@) {
                None => None,
                Some(k) => if k <= i || k > s.len() {
                    None
                } else {
                    match spec_take_players_rest(s, k) {
                        None => None,
                        Some((ps, l)) => Some((seq![p] + ps, l)),
                    }
                },
            },
        },
    }
}

fn take_players_rest(v: &Vec<char>, i: usize) -> (r: Option<(Vec<PlayerStateData>, usize)>)
    requires
        i <= v@.len(),
    ensures
        match r {
            Some((ps, j)) => spec_take_players_rest(v@, i as int) == Some(
                (ps.deep_view(), j as int),
            ) && i < j <= v@.len(),
            None => spec_take_players_rest(v@, i as int) is None,
        },
    decreases v@.len() - i,
{
    let (p, j) = match take_player(v, i) {
        Some(p) => p,
        None => {
            return None;
        },
    };
    match take_lit(v, j, "]") {
        Some(k) => {
            let mut ps: Vec<PlayerStateData> = Vec::new();
            ps.push(p);
            assert(ps.deep_view() =~= seq![p.deep_view()]);
            Some((ps, k))
        },
        None => {
            let k = match take_lit(v, j, ",") {
                Some(k) => k,
                None => {
                    return None;
                },
            };
            if k <= i {
                return None;
            }
            match take_players_rest(v, k) {
                None => None,
                Some((rest, l)) => {
                    let mut ps = rest;
                    ps.insert(0, p);
                    assert(ps.deep_view() =~= seq![p.deep_view()] + ps.deep_view().subrange(
                        1,
                        ps.deep_view().len() as int,
                    ));
                    Some((ps, l))
                },
            }
        },
    }
}

pub open spec fn spec_take_coords_rest(s: Seq<char>, i: int) -> Option<(Seq<Coord>, int)>
    decreases s.len() - i,
{
    match spec_take_coord(s, i) {
        None => None,
        Some((c, j)) => match spec_take_lit(s, j, "]"@) {
            Some(k) => Some((seq![c], k)),
            None => match spec_take_lit(s, j, ","@) {
                None => None,
                Some(k) => if k <= i || k > s.len() {
                    None
                } else {
                    match spec_take_coords_rest(s, k) {
                        None => None,
                        Some((cs, l)) => Some((seq![c] + cs, l)),
                    }
                },
            },
        },
    }
}

fn take_coords_rest(v: &Vec<char>, i: usize) -> (r: Option<(Vec<PositionCoords>, usize)>)
    requires
        i <= v@.len(),
    ensures
        match r {
            Some((cs, j)) => spec_take_coords_rest(v@, i as int) == Some(
                (cs.deep_view(), j as int),
            ) && i < j <= v@.len(),
            None => spec_take_coords_rest(v@, i as int) is None,
        },
    decreases v@.len() - i,
{
    let (c, j) = match take_coord(v, i) {
        Some(p) => p,
        None => {
            return None;
        },
    };
    match take_lit(v, j, "]") {
        Some(k) => {
            let mut cs: Vec<PositionCoords> = Vec::new();
            cs.push(c);
            assert(cs.deep_view() =~= seq![c@]);
            Some((cs, k))
        },
        None => {
            let k = match take_lit(v, j, ",") {
                Some(k) => k,
                None => {
                    return None;
                },
            };
            if k <= i {
                return None;
            }
            match take_coords_rest(v, k) {
                None => None,
                Some((rest, l)) => {
                    let mut cs = rest;
                    cs.insert(0, c);
                    assert(cs.deep_view() =~= seq![c@] + cs.deep_view().subrange(
                        1,
                        cs.deep_view().len() as int,
                    ));
                    Some((cs, l))
                },
            }
        },
    }
}

/// A whole inbound envelope: its type tag, player identity, and nested
/// payload text. Only a complete canonical frame is accepted.
pub open spec fn spec_parse_envelope(s: Seq<char>) -> Option<(Seq<char>, u64, Seq<char>)> {
    match spec_take_lit(s, 0, "{\"message_type\":\""@) {
        None => None,
        Some(i1) => match spec_take_str_content(s, i1) {
            None => None,
            Some((ty, i2)) => match spec_take_lit(s, i2, ",\"player_id\":"@) {
                None => None,
                Some(i3) => match spec_take_u64(s, i3) {
                    None => None,
                    Some((id, i4)) => match spec_take_lit(s, i4, ",\"message\":\""@) {
                        None => None,
                        Some(i5) => match spec_take_str_content(s, i5) {
                            None => None,
                            Some((msg, i6)) => match spec_take_lit(s, i6, "}"@) {
                                None => None,
                                Some(i7) => if i7 == s.len() {
                                    Some((ty, id, msg))
                                } else {
                                    None
                                },
                            },
                        },
                    },
                },
            },
        },
    }
}

/// Parses an inbound envelope.
pub fn parse_envelope(v: &Vec<char>) -> (r: Option<(Vec<char>, u64, Vec<char>)>)
    ensures
        match r {
            Some((ty, id, msg)) => spec_parse_envelope(v@) == Some((ty@, id, msg@)),
            None => spec_parse_envelope(v@) is None,
        },
{
    let i1 = match take_lit(v, 0, "{\"message_type\":\"") {
        Some(j) => j,
        None => {
            return None;
        },
    };
    let (ty, i2) = match take_str_content(v, i1) {
        Some(p) => p,
        None => {
            return None;
        },
    };
    let i3 = match take_lit(v, i2, ",\"player_id\":") {
        Some(j) => j,
        None => {
            return None;
        },
    };
    let (id, i4) = match take_u64(v, i3) {
        Some(p) => p,
        None => {
            return None;
        },
    };
    let i5 = match take_lit(v, i4, ",\"message\":\"") {
        Some(j) => j,
        None => {
            return None;
        },
    };
    let (msg, i6) = match take_str_content(v, i5) {
        Some(p) => p,
        None => {
            return None;
        },
    };
    let i7 = match take_lit(v, i6, "}") {
        Some(j) => j,
        None => {
            return None;
        },
    };
    if i7 != v.len() {
        return None;
    }
    Some((ty, id, msg))
}

/// The `player_states` payload: the canonical array of per-player states.
pub open spec fn spec_parse_player_states(s: Seq<char>) -> Option<Seq<PlayerView>> {
    match spec_take_lit(s, 0, "["@) {
        None => None,
        Some(j) => match spec_take_lit(s, j, "]"@) {
            Some(k) => if k == s.len() {
                Some(Seq::<PlayerView>::empty())
            } else {
                None
            },
            None => match spec_take_players_rest(s, j) {
                None => None,
                Some((ps, k)) => if k == s.len() {
                    Some(ps)
                } else {
                    None
                },
            },
        },
    }
}

/// Parses a `player_states` payload.
pub fn parse_player_states(v: &Vec<char>) -> (r: Option<Vec<PlayerStateData>>)
    ensures
        match r {
            Some(ps) => spec_parse_player_states(v@) == Some(ps.deep_view()),
            None => spec_parse_player_states(v@) is None,
        },
{
    let j = match take_lit(v, 0, "[") {
        Some(j) => j,
        None => {
            return None;
        },
    };
    match take_lit(v, j, "]") {
        Some(k) => {
            if k == v.len() {
                let ps: Vec<PlayerStateData> = Vec::new();
                assert(ps.deep_view() =~= Seq::<PlayerView>::empty());
                Some(ps)
            } else {
                None
            }
        },
        None => {
            match take_players_rest(v, j) {
                None => None,
                Some((ps, k)) => {
                    if k == v.len() {
                        Some(ps)
                    } else {
                        None
                    }
                },
            }
        },
    }
}

/// The `map_state` payload: the canonical food-position list.
pub open spec fn spec_parse_map_state(s: Seq<char>) -> Option<Seq<Coord>> {
    match spec_take_lit(s, 0, "{\"food_positions\":["@) {
        None => None,
        Some(j) => match spec_take_lit(s, j, "]}"@) {
            Some(k) => if k == s.len() {
                Some(Seq::<Coord>::empty())
            } else {
                None
            },
            None => match spec_take_coords_rest(s, j) {
                None => None,
                Some((cs, k)) => match spec_take_lit(s, k, "}"@) {
                    None => None,
                    Some(l) => if l == s.len() {
                        Some(cs)
                    } else {
                        None
                    },
                },
            },
        },
    }
}

/// Parses a `map_state` payload.
pub fn parse_map_state(v: &Vec<char>) -> (r: Option<Vec<PositionCoords>>)
    ensures
        match r {
            Some(cs) => spec_parse_map_state(v@) == Some(cs.deep_view()),
            None => spec_parse_map_state(v@) is None,
        },
{
    let j = match take_lit(v, 0, "{\"food_positions\":[") {
        Some(j) => j,
        None => {
            return None;
        },
    };
    match take_lit(v, j, "]}") {
        Some(k) => {
            if k == v.len() {
                let cs: Vec<PositionCoords> = Vec::new();
                assert(cs.deep_view() =~= Seq::<Coord>::empty());
                Some(cs)
            } else {
                None
            }
        },
        None => {
            match take_coords_rest(v, j) {
                None => None,
                Some((cs, k)) => {
                    let l = match take_lit(v, k, "}") {
                        Some(l) => l,
                        None => {
                            return None;
                        },
                    };
                    if l == v.len() {
                        Some(cs)
                    } else {
                        None
                    }
                },
            }
        },
    }
}

// ---------------------------------------------------------------------------
// Round trip: parsing owes success on every canonical frame.
// ---------------------------------------------------------------------------

proof fn lemma_dec_digits(n: nat)
    ensures
        spec_dec(n).len() >= 1,
        forall|k: int| 0 <= k < spec_dec(n).len() ==> digit_val(#[trigger] spec_dec(n)[k]) >= 0,
    decreases n,
{
    if n >= 10 {
        lemma_dec_digits(n / 10);
    }
}

proof fn lemma_dec_first_nonzero(n: nat)
    requires
        n > 0,
    ensures
        spec_dec(n)[0] != '0',
    decreases n,
{
    if n >= 10 {
        lemma_dec_first_nonzero(n / 10);
        lemma_dec_digits(n / 10);
        assert(spec_dec(n)[0] == spec_dec(n / 10)[0]);
    }
}

proof fn lemma_val_dec(n: nat)
    ensures
        val_digits(spec_dec(n)) == n,
    decreases n,
{
    if n < 10 {
        assert(spec_dec(n).last() == spec_digit(n as int));
        assert(spec_dec(n).drop_last() =~= Seq::<char>::empty());
        assert(val_digits(Seq::<char>::empty()) == 0);
        assert(digit_val(spec_digit(n as int)) == n);
    } else {
        lemma_val_dec(n / 10);
        lemma_dec_digits(n / 10);
        assert(spec_dec(n).drop_last() =~= spec_dec(n / 10));
        assert(spec_dec(n).last() == spec_digit((n % 10) as int));
        assert(digit_val(spec_digit((n % 10) as int)) == n % 10);
        assert(n / 10 * 10 + n % 10 == n);
    }
}

/// Law: the canonical digits of `x`, followed by anything that is not a
/// digit, parse back to exactly `x`.
pub proof fn lemma_take_u64_round(s: Seq<char>, i: int, x: u64)
    requires
        0 <= i,
        i + spec_dec(x as nat).len() <= s.len(),
        s.subrange(i, i + spec_dec(x as nat).len() as int) == spec_dec(x as nat),
        i + spec_dec(x as nat).len() == s.len() || digit_val(s[i + spec_dec(x as nat).len()])
            < 0,
    ensures
        spec_take_u64(s, i) == Some((x, (i + spec_dec(x as nat).len()) as int)),
{
    let ds = spec_dec(x as nat);
    let j = i + ds.len() as int;
    lemma_dec_digits(x as nat);
    assert forall|k: int| i <= k < j implies digit_val(#[trigger] s[k]) >= 0 by {
        assert(s[k] == s.subrange(i, j)[k - i]);
    }
    lemma_digit_run_end(s, i, j);
    assert(s[i] == ds[0]);
    if x > 0 {
        lemma_dec_first_nonzero(x as nat);
    }
    lemma_val_dec(x as nat);
}

/// Law: an escaped string body followed by its closing quote parses back to
/// exactly the text that was escaped.
pub proof fn lemma_take_str_content_round(s: Seq<char>, i: int, m: Seq<char>)
    requires
        0 <= i,
        i + spec_escape(m).len() + 1 <= s.len(),
        s.subrange(i, i + spec_escape(m).len() as int) == spec_escape(m),
        s[i + spec_escape(m).len()] == '"',
    ensures
        spec_take_str_content(s, i) == Some((m, i + spec_escape(m).len() + 1)),
    decreases m.len(),
{
    let e = spec_escape(m);
    if m.len() == 0 {
        assert(s[i] == '"');
    } else {
        let c = m[0];
        let m2 = m.subrange(1, m.len() as int);
        let e2 = spec_escape(m2);
        assert forall|k: int| 0 <= k < e.len() implies s[i + k] == e[k] by {
            assert(e[k] == s.subrange(i, i + e.len() as int)[k]);
        }
        if c == '"' || c == '\\' {
            assert(e == seq!['\\', c] + e2);
            assert(s[i] == s.subrange(i, i + e.len() as int)[0] && s.subrange(
                i,
                i + e.len() as int,
            )[0] == e[0]);
            assert(s[i + 1] == s.subrange(i, i + e.len() as int)[1]);
            assert(s[i] == '\\');
            assert(s[i + 1] == c);
            assert forall|k: int|
                0 <= k < e2.len() implies s.subrange(i + 2, i + 2 + e2.len() as int)[k]
                    == e2[k] by {
                assert(s.subrange(i + 2, i + 2 + e2.len() as int)[k] == s[i + 2 + k]);
                assert(s.subrange(i, i + e.len() as int)[2 + k] == s[i + (2 + k)]);
                assert(e[2 + k] == e2[k]);
            }
            assert(s.subrange(i + 2, i + 2 + e2.len() as int) =~= e2);
            lemma_take_str_content_round(s, i + 2, m2);
            assert(seq![s[i + 1]] + m2 =~= m);
        } else {
            assert(e == seq![c] + e2);
            assert(s[i] == s.subrange(i, i + e.len() as int)[0] && s.subrange(
                i,
                i + e.len() as int,
            )[0] == e[0]);
            assert(s[i] == c);
            assert forall|k: int|
                0 <= k < e2.len() implies s.subrange(i + 1, i + 1 + e2.len() as int)[k]
                    == e2[k] by {
                assert(s.subrange(i + 1, i + 1 + e2.len() as int)[k] == s[i + 1 + k]);
                assert(s.subrange(i, i + e.len() as int)[1 + k] == s[i + (1 + k)]);
                assert(e[1 + k] == e2[k]);
            }
            assert(s.subrange(i + 1, i + 1 + e2.len() as int) =~= e2);
            lemma_take_str_content_round(s, i + 1, m2);
            assert(seq![s[i]] + m2 =~= m);
        }
    }
}

/// Law: every canonical envelope parses back to exactly its type tag,
/// player identity, and nested payload text.
#[verifier::rlimit(80)]
pub proof fn lemma_envelope_round_trip(ty: Seq<char>, id: u64, msg: Seq<char>)
    ensures
        spec_parse_envelope(json_envelope(ty, id as nat, msg)) == Some((ty, id, msg)),
{
    reveal_strlit("{\"message_type\":\"");
    reveal_strlit("\",\"player_id\":");
    reveal_strlit(",\"player_id\":");
    reveal_strlit(",\"message\":\"");
    reveal_strlit("\"}");
    reveal_strlit("}");
    let e1 = "{\"message_type\":\""@;
    let l2 = ",\"player_id\":"@;
    let l3 = ",\"message\":\""@;
    let rb = "}"@;
    let q = seq!['"'];
    let ety = spec_escape(ty);
    let ds = spec_dec(id as nat);
    let emsg = spec_escape(msg);
    let s = json_envelope(ty, id as nat, msg);
    assert("\",\"player_id\":"@ =~= q + l2);
    assert("\"}"@ =~= q + rb);
    assert(s =~= e1 + ety + q + l2 + ds + l3 + emsg + q + rb);
    let i1 = e1.len() as int;
    let i2 = i1 + ety.len() + 1;
    let i3 = i2 + l2.len() as int;
    let i4 = i3 + ds.len() as int;
    let i5 = i4 + l3.len() as int;
    let i6 = i5 + emsg.len() + 1;
    let i7 = i6 + rb.len() as int;
    assert(s.subrange(0, i1) =~= e1);
    assert(spec_take_lit(s, 0, e1) == Some(i1));
    assert(s.subrange(i1, i1 + ety.len() as int) =~= ety);
    assert(s[i1 + ety.len()] == '"');
    lemma_take_str_content_round(s, i1, ty);
    assert(s.subrange(i2, i3) =~= l2);
    assert(spec_take_lit(s, i2, l2) == Some(i3));
    assert(s.subrange(i3, i4) =~= ds);
    assert(s[i4] == ',');
    assert(digit_val(',') < 0);
    lemma_take_u64_round(s, i3, id);
    assert(s.subrange(i4, i5) =~= l3);
    assert(spec_take_lit(s, i4, l3) == Some(i5));
    assert(s.subrange(i5, i5 + emsg.len() as int) =~= emsg);
    assert(s[i5 + emsg.len()] == '"');
    lemma_take_str_content_round(s, i5, msg);
    assert(s.subrange(i6, i7) =~= rb);
    assert(spec_take_lit(s, i6, rb) == Some(i7));
    assert(i7 == s.len());
}

proof fn lemma_take_coord_round(s: Seq<char>, i: int, c: Coord)
    requires
        0 <= i,
        in_bounds(c),
        i + json_coord(c).len() <= s.len(),
        s.subrange(i, i + json_coord(c).len() as int) == json_coord(c),
    ensures
        spec_take_coord(s, i) == Some((c, i + json_coord(c).len() as int)),
{
    reveal_strlit("{\"x\":");
    reveal_strlit(",\"y\":");
    reveal_strlit("}");
    let lx = "{\"x\":"@;
    let ly = ",\"y\":"@;
    let rb = "}"@;
    let dx = spec_dec(c.x as nat);
    let dy = spec_dec(c.y as nat);
    let e = json_coord(c);
    assert forall|k: int| i <= k < i + e.len() implies #[trigger] s[k] == e[k - i] by {
        assert(s.subrange(i, i + e.len() as int)[k - i] == e[k - i]);
    }
    let i1 = i + lx.len() as int;
    let i2 = i1 + dx.len() as int;
    let i3 = i2 + ly.len() as int;
    let i4 = i3 + dy.len() as int;
    let i5 = i4 + rb.len() as int;
    assert(s.subrange(i, i1) =~= lx);
    assert(spec_take_lit(s, i, lx) == Some(i1));
    assert(s.subrange(i1, i2) =~= dx);
    assert(s[i2] == ',');
    assert(digit_val(',') < 0);
    lemma_take_u64_round(s, i1, c.x as u64);
    assert(s.subrange(i2, i3) =~= ly);
    assert(spec_take_lit(s, i2, ly) == Some(i3));
    assert(s.subrange(i3, i4) =~= dy);
    assert(s[i4] == '}');
    assert(digit_val('}') < 0);
    lemma_take_u64_round(s, i3, c.y as u64);
    assert(s.subrange(i4, i5) =~= rb);
    assert(spec_take_lit(s, i4, rb) == Some(i5));
}

#[verifier::rlimit(100)]
proof fn lemma_coords_rest_round(s: Seq<char>, i: int, cs: Seq<Coord>, m: int)
    requires
        0 <= i,
        0 <= m < cs.len(),
        forall|k: int| 0 <= k < cs.len() ==> in_bounds(#[trigger] cs[k]),
        i + json_coords_from(cs, m).len() + 1 <= s.len(),
        s.subrange(i, i + json_coords_from(cs, m).len() + 1) == json_coords_from(cs, m)
            + seq![']'],
    ensures
        spec_take_coords_rest(s, i) == Some(
            (cs.subrange(m, cs.len() as int), i + json_coords_from(cs, m).len() + 1),
        ),
    decreases cs.len() - m,
{
    reveal_strlit("]");
    reveal_strlit(",");
    let e = json_coords_from(cs, m) + seq![']'];
    assert forall|k: int| i <= k < i + e.len() implies #[trigger] s[k] == e[k - i] by {
        assert(s.subrange(i, i + e.len() as int)[k - i] == e[k - i]);
    }
    let c0 = cs[m];
    let jc = json_coord(c0);
    let j = i + jc.len() as int;
    if m == cs.len() - 1 {
        assert(json_coords_from(cs, m) == jc);
        assert(s.subrange(i, j) =~= jc);
        lemma_take_coord_round(s, i, c0);
        assert(s[j] == ']');
        assert(s.subrange(j, j + 1) =~= "]"@);
        assert(spec_take_lit(s, j, "]"@) == Some(j + 1));
        assert(seq![c0] =~= cs.subrange(m, cs.len() as int));
    } else {
        let tail = json_coords_from(cs, m + 1);
        assert(json_coords_from(cs, m) == jc + ","@ + tail);
        assert(","@ =~= seq![',']);
        assert(s.subrange(i, j) =~= jc);
        lemma_take_coord_round(s, i, c0);
        assert(s[j] == ',');
        assert(s.subrange(j, j + 1) =~= ","@);
        assert(spec_take_lit(s, j, ","@) == Some(j + 1));
        assert(s[j] != ']');
        assert(s.subrange(j, j + 1) != "]"@);
        assert(spec_take_lit(s, j, "]"@) is None);
        assert forall|k: int|
            0 <= k < tail.len() + 1 implies s.subrange(j + 1, j + 1 + tail.len() + 1)[k] == (tail
            + seq![']'])[k] by {
            assert(s.subrange(j + 1, j + 1 + tail.len() + 1)[k] == s[j + 1 + k]);
            assert(e[(jc.len() + 1 + k) as int] == (tail + seq![']'])[k]);
            assert(s[i + (jc.len() + 1 + k)] == e[(jc.len() + 1 + k) as int]);
        }
        assert(s.subrange(j + 1, j + 1 + tail.len() + 1) =~= tail + seq![']']);
        lemma_coords_rest_round(s, j + 1, cs, m + 1);
        assert(seq![c0] + cs.subrange(m + 1, cs.len() as int) =~= cs.subrange(
            m,
            cs.len() as int,
        ));
    }
}

/// Law: every canonical `map_state` payload parses back to exactly its
/// food-position list.
#[verifier::rlimit(60)]
pub proof fn lemma_map_state_round_trip(cs: Seq<Coord>)
    requires
        forall|k: int| 0 <= k < cs.len() ==> in_bounds(#[trigger] cs[k]),
    ensures
        spec_parse_map_state(json_map_state(cs)) == Some(cs),
{
    reveal_strlit("{\"food_positions\":[");
    reveal_strlit("]}");
    reveal_strlit("]");
    reveal_strlit("}");
    reveal_strlit("{\"x\":");
    let l1 = "{\"food_positions\":["@;
    let s = json_map_state(cs);
    let body = json_coords_from(cs, 0);
    let i1 = l1.len() as int;
    assert(s.subrange(0, i1) =~= l1);
    assert(spec_take_lit(s, 0, l1) == Some(i1));
    if cs.len() == 0 {
        assert(body == Seq::<char>::empty());
        assert(s =~= l1 + "]}"@);
        assert(s.subrange(i1, i1 + 2) =~= "]}"@);
        assert(spec_take_lit(s, i1, "]}"@) == Some(s.len() as int));
    } else {
        assert("]}"@ =~= seq![']'] + "}"@);
        assert(s =~= l1 + (body + seq![']']) + "}"@);
        let i2 = i1 + body.len() + 1;
        assert(s.subrange(i1, i2) =~= body + seq![']']);
        lemma_coords_rest_round(s, i1, cs, 0);
        assert(cs.subrange(0, cs.len() as int) =~= cs);
        assert(s[i1] == (body + seq![']'])[0]);
        assert(body[0] == json_coord(cs[0])[0]);
        assert(json_coord(cs[0])[0] == '{');
        assert(s.subrange(i1, i1 + 2)[0] == '{');
        assert(s.subrange(i1, i1 + 2) != "]}"@);
        assert(spec_take_lit(s, i1, "]}"@) is None);
        assert(s.subrange(i2, i2 + 1) =~= "}"@);
        assert(spec_take_lit(s, i2, "}"@) == Some(s.len() as int));
    }
}

proof fn lemma_take_direction_round(s: Seq<char>, i: int, d: Direction)
    requires
        0 <= i,
        i + json_direction(d).len() + 1 <= s.len(),
        s.subrange(i, i + json_direction(d).len() + 1) == json_direction(d) + seq!['"'],
    ensures
        spec_take_direction(s, i) == Some((d, i + json_direction(d).len() + 1)),
{
    reveal_strlit("UP");
    reveal_strlit("DOWN");
    reveal_strlit("LEFT");
    reveal_strlit("RIGHT");
    reveal_strlit("UP\"");
    reveal_strlit("DOWN\"");
    reveal_strlit("LEFT\"");
    reveal_strlit("RIGHT\"");
    let jd = json_direction(d);
    let e = jd + seq!['"'];
    assert forall|k: int| i <= k < i + e.len() implies #[trigger] s[k] == e[k - i] by {
        assert(s.subrange(i, i + e.len() as int)[k - i] == e[k - i]);
    }
    match d {
        Direction::UP => {
            assert(s.subrange(i, i + 3) =~= "UP\""@);
            assert(spec_take_lit(s, i, "UP\""@) == Some(i + 3));
        },
        Direction::DOWN => {
            assert(s[i] == 'D');
            if i + 3 <= s.len() {
                assert(s.subrange(i, i + 3)[0] == s[i]);
                assert(s.subrange(i, i + 3) != "UP\""@);
            }
            assert(spec_take_lit(s, i, "UP\""@) is None);
            assert(s.subrange(i, i + 5) =~= "DOWN\""@);
            assert(spec_take_lit(s, i, "DOWN\""@) == Some(i + 5));
        },
        Direction::LEFT => {
            assert(s[i] == 'L');
            if i + 3 <= s.len() {
                assert(s.subrange(i, i + 3)[0] == s[i]);
                assert(s.subrange(i, i + 3) != "UP\""@);
            }
            assert(spec_take_lit(s, i, "UP\""@) is None);
            if i + 5 <= s.len() {
                assert(s.subrange(i, i + 5)[0] == s[i]);
                assert(s.subrange(i, i + 5) != "DOWN\""@);
            }
            assert(spec_take_lit(s, i, "DOWN\""@) is None);
            assert(s.subrange(i, i + 5) =~= "LEFT\""@);
            assert(spec_take_lit(s, i, "LEFT\""@) == Some(i + 5));
        },
        Direction::RIGHT => {
            assert(s[i] == 'R');
            if i + 3 <= s.len() {
                assert(s.subrange(i, i + 3)[0] == s[i]);
                assert(s.subrange(i, i + 3) != "UP\""@);
            }
            assert(spec_take_lit(s, i, "UP\""@) is None);
            if i + 5 <= s.len() {
                assert(s.subrange(i, i + 5)[0] == s[i]);
                assert(s.subrange(i, i + 5) != "DOWN\""@);
                assert(s.subrange(i, i + 5) != "LEFT\""@);
            }
            assert(spec_take_lit(s, i, "DOWN\""@) is None);
            assert(spec_take_lit(s, i, "LEFT\""@) is None);
            assert(s.subrange(i, i + 6) =~= "RIGHT\""@);
            assert(spec_take_lit(s, i, "RIGHT\""@) == Some(i + 6));
        },
    }
}

#[verifier::rlimit(100)]
proof fn lemma_take_segment_round(s: Seq<char>, i: int, g: Seg)
    requires
        0 <= i,
        in_bounds(g.coord()),
        i + json_segment(g).len() <= s.len(),
        s.subrange(i, i + json_segment(g).len() as int) == json_segment(g),
    ensures
        spec_take_segment(s, i) == Some((g, i + json_segment(g).len() as int)),
{
    reveal_strlit("{\"x\":");
    reveal_strlit(",\"y\":");
    reveal_strlit(",\"direction\":\"");
    reveal_strlit("\"}");
    reveal_strlit("}");
    let lx = "{\"x\":"@;
    let ly = ",\"y\":"@;
    let ld = ",\"direction\":\""@;
    let dx = spec_dec(g.x as nat);
    let dy = spec_dec(g.y as nat);
    let jd = json_direction(g.direction);
    let e = json_segment(g);
    assert("\"}"@ =~= seq!['"'] + "}"@);
    assert(e =~= lx + dx + ly + dy + ld + jd + seq!['"'] + "}"@);
    assert forall|k: int| i <= k < i + e.len() implies #[trigger] s[k] == e[k - i] by {
        assert(s.subrange(i, i + e.len() as int)[k - i] == e[k - i]);
    }
    let i1 = i + lx.len() as int;
    let i2 = i1 + dx.len() as int;
    let i3 = i2 + ly.len() as int;
    let i4 = i3 + dy.len() as int;
    let i5 = i4 + ld.len() as int;
    let i6 = i5 + jd.len() + 1;
    let i7 = i6 + 1;
    assert(s.subrange(i, i1) =~= lx);
    assert(spec_take_lit(s, i, lx) == Some(i1));
    assert(s.subrange(i1, i2) =~= dx);
    assert(s[i2] == ',');
    assert(digit_val(',') < 0);
    lemma_take_u64_round(s, i1, g.x as u64);
    assert(s.subrange(i2, i3) =~= ly);
    assert(spec_take_lit(s, i2, ly) == Some(i3));
    assert(s.subrange(i3, i4) =~= dy);
    assert(s[i4] == ',');
    lemma_take_u64_round(s, i3, g.y as u64);
    assert(s.subrange(i4, i5) =~= ld);
    assert(spec_take_lit(s, i4, ld) == Some(i5));
    assert(s.subrange(i5, i5 + jd.len() + 1) =~= jd + seq!['"']);
    lemma_take_direction_round(s, i5, g.direction);
    assert(s.subrange(i6, i7) =~= "}"@);
    assert(spec_take_lit(s, i6, "}"@) == Some(i7));
}

#[verifier::rlimit(100)]
proof fn lemma_segments_rest_round(s: Seq<char>, i: int, gs: Seq<Seg>, m: int)
    requires
        0 <= i,
        0 <= m < gs.len(),
        forall|k: int| 0 <= k < gs.len() ==> in_bounds(#[trigger] gs[k].coord()),
        i + json_segments_from(gs, m).len() + 1 <= s.len(),
        s.subrange(i, i + json_segments_from(gs, m).len() + 1) == json_segments_from(gs, m)
            + seq![']'],
    ensures
        spec_take_segments_rest(s, i) == Some(
            (gs.subrange(m, gs.len() as int), i + json_segments_from(gs, m).len() + 1),
        ),
    decreases gs.len() - m,
{
    reveal_strlit("]");
    reveal_strlit(",");
    reveal_strlit("{\"x\":");
    let e = json_segments_from(gs, m) + seq![']'];
    assert forall|k: int| i <= k < i + e.len() implies #[trigger] s[k] == e[k - i] by {
        assert(s.subrange(i, i + e.len() as int)[k - i] == e[k - i]);
    }
    let g0 = gs[m];
    let jg = json_segment(g0);
    let j = i + jg.len() as int;
    if m == gs.len() - 1 {
        assert(json_segments_from(gs, m) == jg);
        assert(s.subrange(i, j) =~= jg);
        lemma_take_segment_round(s, i, g0);
        assert(s[j] == ']');
        assert(s.subrange(j, j + 1) =~= "]"@);
        assert(spec_take_lit(s, j, "]"@) == Some(j + 1));
        assert(seq![g0] =~= gs.subrange(m, gs.len() as int));
    } else {
        let tail = json_segments_from(gs, m + 1);
        assert(json_segments_from(gs, m) == jg + ","@ + tail);
        assert(","@ =~= seq![',']);
        assert(s.subrange(i, j) =~= jg);
        lemma_take_segment_round(s, i, g0);
        assert(s[j] == ',');
        assert(s.subrange(j, j + 1) =~= ","@);
        assert(spec_take_lit(s, j, ","@) == Some(j + 1));
        assert(s[j] != ']');
        assert(s.subrange(j, j + 1) != "]"@);
        assert(spec_take_lit(s, j, "]"@) is None);
        assert(s.subrange(j + 1, j + 1 + tail.len() + 1) =~= tail + seq![']']);
        lemma_segments_rest_round(s, j + 1, gs, m + 1);
        assert(seq![g0] + gs.subrange(m + 1, gs.len() as int) =~= gs.subrange(
            m,
            gs.len() as int,
        ));
    }
}

proof fn lemma_take_segments_round(s: Seq<char>, i: int, gs: Seq<Seg>)
    requires
        0 <= i,
        forall|k: int| 0 <= k < gs.len() ==> in_bounds(#[trigger] gs[k].coord()),
        i + json_segments_from(gs, 0).len() + 1 <= s.len(),
        s.subrange(i, i + json_segments_from(gs, 0).len() + 1) == json_segments_from(gs, 0)
            + seq![']'],
    ensures
        spec_take_segments(s, i) == Some((gs, i + json_segments_from(gs, 0).len() + 1)),
{
    reveal_strlit("]");
    reveal_strlit("{\"x\":");
    let e = json_segments_from(gs, 0) + seq![']'];
    assert forall|k: int| i <= k < i + e.len() implies #[trigger] s[k] == e[k - i] by {
        assert(s.subrange(i, i + e.len() as int)[k - i] == e[k - i]);
    }
    if gs.len() == 0 {
        assert(s[i] == ']');
        assert(s.subrange(i, i + 1) =~= "]"@);
        assert(spec_take_lit(s, i, "]"@) == Some(i + 1));
        assert(gs =~= Seq::<Seg>::empty());
    } else {
        assert(json_segments_from(gs, 0)[0] == json_segment(gs[0])[0]);
        assert(json_segment(gs[0])[0] == '{');
        assert(s[i] == '{');
        assert(s.subrange(i, i + 1)[0] == s[i]);
        assert(s.subrange(i, i + 1) != "]"@);
        assert(spec_take_lit(s, i, "]"@) is None);
        lemma_segments_rest_round(s, i, gs, 0);
        assert(gs.subrange(0, gs.len() as int) =~= gs);
    }
}

#[verifier::rlimit(100)]
proof fn lemma_take_player_round(s: Seq<char>, i: int, p: PlayerView)
    requires
        0 <= i,
        0 <= p.player_id <= u64::MAX,
        forall|k: int| 0 <= k < p.segments.len() ==> in_bounds(#[trigger] p.segments[k].coord()),
        i + json_player(p).len() <= s.len(),
        s.subrange(i, i + json_player(p).len() as int) == json_player(p),
    ensures
        spec_take_player(s, i) == Some((p, i + json_player(p).len() as int)),
{
    reveal_strlit("{\"player_id\":");
    reveal_strlit(",\"body_segments\":[");
    reveal_strlit("]}");
    reveal_strlit("]");
    reveal_strlit("}");
    let l1 = "{\"player_id\":"@;
    let l2 = ",\"body_segments\":["@;
    let di = spec_dec(p.player_id as nat);
    let body = json_segments_from(p.segments, 0);
    let e = json_player(p);
    assert("]}"@ =~= seq![']'] + "}"@);
    assert(e =~= l1 + di + l2 + body + seq![']'] + "}"@);
    assert forall|k: int| i <= k < i + e.len() implies #[trigger] s[k] == e[k - i] by {
        assert(s.subrange(i, i + e.len() as int)[k - i] == e[k - i]);
    }
    let i1 = i + l1.len() as int;
    let i2 = i1 + di.len() as int;
    let i3 = i2 + l2.len() as int;
    let i4 = i3 + body.len() + 1;
    let i5 = i4 + 1;
    assert(s.subrange(i, i1) =~= l1);
    assert(spec_take_lit(s, i, l1) == Some(i1));
    assert(s.subrange(i1, i2) =~= di);
    assert(s[i2] == ',');
    assert(digit_val(',') < 0);
    lemma_take_u64_round(s, i1, p.player_id as u64);
    assert(s.subrange(i2, i3) =~= l2);
    assert(spec_take_lit(s, i2, l2) == Some(i3));
    assert(s.subrange(i3, i3 + body.len() + 1) =~= body + seq![']']);
    lemma_take_segments_round(s, i3, p.segments);
    assert(s.subrange(i4, i5) =~= "}"@);
    assert(spec_take_lit(s, i4, "}"@) == Some(i5));
    assert((p.player_id as u64) as int == p.player_id);
}

#[verifier::rlimit(100)]
proof fn lemma_players_rest_round(s: Seq<char>, i: int, ps: Seq<PlayerView>, m: int)
    requires
        0 <= i,
        0 <= m < ps.len(),
        forall|k: int| 0 <= k < ps.len() ==> 0 <= (#[trigger] ps[k]).player_id <= u64::MAX,
        forall|k: int, l: int|
            0 <= k < ps.len() && 0 <= l < ps[k].segments.len() ==> in_bounds(
                #[trigger] ps[k].segments[l].coord(),
            ),
        i + json_players_from(ps, m).len() + 1 <= s.len(),
        s.subrange(i, i + json_players_from(ps, m).len() + 1) == json_players_from(ps, m)
            + seq![']'],
    ensures
        spec_take_players_rest(s, i) == Some(
            (ps.subrange(m, ps.len() as int), i + json_players_from(ps, m).len() + 1),
        ),
    decreases ps.len() - m,
{
    reveal_strlit("]");
    reveal_strlit(",");
    let e = json_players_from(ps, m) + seq![']'];
    assert forall|k: int| i <= k < i + e.len() implies #[trigger] s[k] == e[k - i] by {
        assert(s.subrange(i, i + e.len() as int)[k - i] == e[k - i]);
    }
    let p0 = ps[m];
    let jp = json_player(p0);
    let j = i + jp.len() as int;
    if m == ps.len() - 1 {
        assert(json_players_from(ps, m) == jp);
        assert(s.subrange(i, j) =~= jp);
        lemma_take_player_round(s, i, p0);
        assert(s[j] == ']');
        assert(s.subrange(j, j + 1) =~= "]"@);
        assert(spec_take_lit(s, j, "]"@) == Some(j + 1));
        assert(seq![p0] =~= ps.subrange(m, ps.len() as int));
    } else {
        let tail = json_players_from(ps, m + 1);
        assert(json_players_from(ps, m) == jp + ","@ + tail);
        assert(","@ =~= seq![',']);
        assert(s.subrange(i, j) =~= jp);
        lemma_take_player_round(s, i, p0);
        assert(s[j] == ',');
        assert(s.subrange(j, j + 1) =~= ","@);
        assert(spec_take_lit(s, j, ","@) == Some(j + 1));
        assert(s[j] != ']');
        assert(s.subrange(j, j + 1) != "]"@);
        assert(spec_take_lit(s, j, "]"@) is None);
        assert(s.subrange(j + 1, j + 1 + tail.len() + 1) =~= tail + seq![']']);
        lemma_players_rest_round(s, j + 1, ps, m + 1);
        assert(seq![p0] + ps.subrange(m + 1, ps.len() as int) =~= ps.subrange(
            m,
            ps.len() as int,
        ));
    }
}

/// Law: every canonical `player_states` payload parses back to exactly its
/// list of per-player states.
#[verifier::rlimit(100)]
pub proof fn lemma_player_states_round_trip(ps: Seq<PlayerView>)
    requires
        forall|k: int| 0 <= k < ps.len() ==> 0 <= (#[trigger] ps[k]).player_id <= u64::MAX,
        forall|k: int, l: int|
            0 <= k < ps.len() && 0 <= l < ps[k].segments.len() ==> in_bounds(
                #[trigger] ps[k].segments[l].coord(),
            ),
    ensures
        spec_parse_player_states(json_player_states(ps)) == Some(ps),
{
    reveal_strlit("[");
    reveal_strlit("]");
    reveal_strlit("{\"player_id\":");
    let s = json_player_states(ps);
    let body = json_players_from(ps, 0);
    assert("["@ =~= seq!['[']);
    assert("]"@ =~= seq![']']);
    assert(s =~= seq!['['] + (body + seq![']']));
    assert(s.subrange(0, 1) =~= "["@);
    assert(spec_take_lit(s, 0, "["@) == Some(1int));
    assert forall|k: int| 1 <= k < s.len() implies #[trigger] s[k] == (body + seq![']'])[k
        - 1] by {
        assert(s[k] == (seq!['['] + (body + seq![']']))[k]);
    }
    if ps.len() == 0 {
        assert(body == Seq::<char>::empty());
        assert(s.subrange(1, 2) =~= "]"@);
        assert(spec_take_lit(s, 1, "]"@) == Some(s.len() as int));
        assert(ps =~= Seq::<PlayerView>::empty());
    } else {
        assert(body[0] == json_player(ps[0])[0]);
        assert(json_player(ps[0])[0] == '{');
        assert(s[1] == '{');
        assert(s.subrange(1, 2)[0] == s[1]);
        assert(s.subrange(1, 2) != "]"@);
        assert(spec_take_lit(s, 1, "]"@) is None);
        assert(s.subrange(1, 1 + body.len() as int + 1) =~= body + seq![']']);
        lemma_players_rest_round(s, 1, ps, 0);
        assert(ps.subrange(0, ps.len() as int) =~= ps);
    }
}

} // verus!
