//! Splitting an input line into whitespace-delimited tokens, joining the
//! tail of a token list back into a message, and the exact text of the
//! lines and envelope payloads the service emits.

use vstd::prelude::*;
use vstd::seq_lib::*;

verus! {

/// The characters treated as token separators in a command line.
pub open spec fn is_space(c: char) -> bool {
    c == ' ' || c == '\t' || c == '\r' || c == '\n'
}

/// Runtime test matching [`is_space`].
pub fn space_char(c: char) -> (b: bool)
    ensures
        b == is_space(c),
{
    c == ' ' || c == '\t' || c == '\r' || c == '\n'
}

/// The longest prefix of `s` that contains no separator.
pub open spec fn token_prefix(s: Seq<char>) -> Seq<char>
    decreases s.len(),
{
    if s.len() == 0 || is_space(s[0]) {
        Seq::empty()
    } else {
        seq![s[0]] + token_prefix(s.drop_first())
    }
}

pub proof fn lemma_token_prefix_len(s: Seq<char>)
    ensures
        token_prefix(s).len() <= s.len(),
        s.len() > 0 && !is_space(s[0]) ==> token_prefix(s).len() >= 1,
    decreases s.len(),
{
    if s.len() > 0 && !is_space(s[0]) {
        lemma_token_prefix_len(s.drop_first());
    }
}

/// The tokens of `s`, in order: maximal runs of non-separator characters.
pub open spec fn tokens_of(s: Seq<char>) -> Seq<Seq<char>>
    decreases s.len(),
    via tokens_of_decreases
{
    if s.len() == 0 {
        Seq::empty()
    } else if is_space(s[0]) {
        tokens_of(s.drop_first())
    } else {
        seq![token_prefix(s)] + tokens_of(s.skip(token_prefix(s).len() as int))
    }
}

#[via_fn]
proof fn tokens_of_decreases(s: Seq<char>) {
    lemma_token_prefix_len(s);
}

/// If the first `k` characters of `s` are non-separators and the character
/// at `k` (if any) is a separator, the first token is exactly `s[0..k]`.
pub proof fn lemma_token_prefix_is_subrange(s: Seq<char>, k: int)
    requires
        0 < k <= s.len(),
        forall|j: int| 0 <= j < k ==> !is_space(s[j]),
        k == s.len() || is_space(s[k]),
    ensures
        token_prefix(s) == s.subrange(0, k),
    decreases k,
{
    if k == 1 {
        if s.len() == 1 {
            assert(token_prefix(s.drop_first()) =~= Seq::empty());
        } else {
            assert(is_space(s.drop_first()[0]));
            assert(token_prefix(s.drop_first()) =~= Seq::empty());
        }
        assert(token_prefix(s) =~= s.subrange(0, 1));
    } else {
        let t = s.drop_first();
        assert(forall|j: int| 0 <= j < k - 1 ==> !is_space(t[j]));
        lemma_token_prefix_is_subrange(t, k - 1);
        assert(token_prefix(s) =~= s.subrange(0, k));
    }
}

/// Splits a line into its whitespace-delimited tokens.
pub fn tokenize(s: &str) -> (r: Vec<String>)
    ensures
        r.deep_view() == tokens_of(s@),
    decreases s@.len(),
{
    let n = s.unicode_len();
    if n == 0 {
        let r: Vec<String> = Vec::new();
        proof {
            assert(r.deep_view() =~= tokens_of(s@));
        }
        return r;
    }
    let c0 = s.get_char(0);
    if space_char(c0) {
        let rest = s.substring_char(1, n);
        let r = tokenize(rest);
        proof {
            assert(rest@ =~= s@.drop_first());
        }
        r
    } else {
        let mut k: usize = 1;
        while k < n && !space_char(s.get_char(k))
            invariant
                1 <= k <= n,
                n == s@.len(),
                forall|j: int| 0 <= j < k ==> !is_space(s@[j]),
            decreases n - k,
        {
            k = k + 1;
        }
        let tok = s.substring_char(0, k).to_owned();
        let rest = s.substring_char(k, n);
        let r = tokenize(rest);
        let ghost rd = r.deep_view();
        let mut out: Vec<String> = Vec::new();
        out.push(tok);
        let mut r = r;
        out.append(&mut r);
        proof {
            lemma_token_prefix_is_subrange(s@, k as int);
            assert(rest@ =~= s@.skip(k as int));
            assert(out.deep_view() =~= seq![token_prefix(s@)] + rd);
        }
        out
    }
}

/// The tokens of `ts`, joined by single spaces: how a command's trailing
/// message text is reassembled from its tokens.
pub open spec fn join_tokens(ts: Seq<Seq<char>>) -> Seq<char>
    decreases ts.len(),
{
    if ts.len() == 0 {
        Seq::empty()
    } else if ts.len() == 1 {
        ts[0]
    } else {
        ts[0] + seq![' '] + join_tokens(ts.drop_first())
    }
}

pub proof fn lemma_join_tokens_push(ts: Seq<Seq<char>>, t: Seq<char>)
    ensures
        join_tokens(ts.push(t)) == if ts.len() == 0 {
            t
        } else {
            join_tokens(ts) + seq![' '] + t
        },
    decreases ts.len(),
{
    let p = ts.push(t);
    if ts.len() == 0 {
        assert(join_tokens(p) == p[0]);
        assert(p[0] == t);
    } else {
        assert(p.drop_first() =~= ts.drop_first().push(t));
        lemma_join_tokens_push(ts.drop_first(), t);
        if ts.len() == 1 {
            assert(join_tokens(p) =~= join_tokens(ts) + seq![' '] + t);
        } else {
            assert(join_tokens(p) =~= join_tokens(ts) + seq![' '] + t);
        }
    }
}

/// Joins the tokens of `ts` from position `from` on with single spaces.
pub fn join_from(ts: &Vec<String>, from: usize) -> (r: String)
    requires
        from <= ts@.len(),
    ensures
        r@ == join_tokens(ts.deep_view().skip(from as int)),
{
    let ghost dv = ts.deep_view();
    let mut r = String::new();
    let mut i: usize = from;
    while i < ts.len()
        invariant
            from <= i <= ts@.len(),
            dv == ts.deep_view(),
            dv.len() == ts@.len(),
            r@ == join_tokens(dv.subrange(from as int, i as int)),
        decreases ts@.len() - i,
    {
        if i > from {
            r.append(" ");
        }
        r.append(ts[i].as_str());
        proof {
            reveal_strlit(" ");
            let pre = dv.subrange(from as int, i as int);
            lemma_join_tokens_push(pre, dv[i as int]);
            assert(dv.subrange(from as int, i + 1 as int) =~= pre.push(dv[i as int]));
        }
        i = i + 1;
    }
    proof {
        assert(dv.skip(from as int) =~= dv.subrange(from as int, dv.len() as int));
    }
    r
}

/// A reply line listing one name in brackets, as the user and room listing
/// commands print.
pub open spec fn bracket_line_view(name: Seq<char>) -> Seq<char> {
    "["@ + name + "]\n"@
}

/// Builds the `[name]\n` line used by the listing commands.
pub fn bracket_line(name: &str) -> (r: String)
    ensures
        r@ == bracket_line_view(name@),
{
    let mut r = String::from_str("[");
    r.append(name);
    r.append("]\n");
    r
}

/// Payload of a private message: `[PM] [sender] text`, newline-terminated.
pub open spec fn pm_text_view(sender: Seq<char>, msg: Seq<char>) -> Seq<char> {
    "[PM] ["@ + sender + "] "@ + msg + "\n"@
}

/// Builds the payload of a private message.
pub fn pm_text(sender: &str, msg: &str) -> (r: String)
    ensures
        r@ == pm_text_view(sender@, msg@),
{
    let mut r = String::from_str("[PM] [");
    r.append(sender);
    r.append("] ");
    r.append(msg);
    r.append("\n");
    r
}

/// Payload of a room message: `[room] [sender] text`, newline-terminated.
pub open spec fn room_text_view(room: Seq<char>, sender: Seq<char>, msg: Seq<char>) -> Seq<char> {
    "["@ + room + "] ["@ + sender + "] "@ + msg + "\n"@
}

/// Builds the payload of a room message.
pub fn room_text(room: &str, sender: &str, msg: &str) -> (r: String)
    ensures
        r@ == room_text_view(room@, sender@, msg@),
{
    let mut r = String::from_str("[");
    r.append(room);
    r.append("] [");
    r.append(sender);
    r.append("] ");
    r.append(msg);
    r.append("\n");
    r
}

/// Payload of a global broadcast: `[glb] [sender] text`, newline-terminated.
pub open spec fn global_text_view(sender: Seq<char>, msg: Seq<char>) -> Seq<char> {
    "[glb] ["@ + sender + "] "@ + msg + "\n"@
}

/// Builds the payload of a global broadcast.
pub fn global_text(sender: &str, msg: &str) -> (r: String)
    ensures
        r@ == global_text_view(sender@, msg@),
{
    let mut r = String::from_str("[glb] [");
    r.append(sender);
    r.append("] ");
    r.append(msg);
    r.append("\n");
    r
}

/// Reply when a reported or messaged user does not exist.
pub open spec fn user_missing_view(user: Seq<char>) -> Seq<char> {
    "User "@ + user + " does not exist\n"@
}

/// Builds the missing-user reply line.
pub fn user_missing_text(user: &str) -> (r: String)
    ensures
        r@ == user_missing_view(user@),
{
    let mut r = String::from_str("User ");
    r.append(user);
    r.append(" does not exist\n");
    r
}

/// Reply when a named room does not exist.
pub open spec fn room_missing_view(room: Seq<char>) -> Seq<char> {
    "Room "@ + room + " does not exist\n"@
}

/// Builds the missing-room reply line.
pub fn room_missing_text(room: &str) -> (r: String)
    ensures
        r@ == room_missing_view(room@),
{
    let mut r = String::from_str("Room ");
    r.append(room);
    r.append(" does not exist\n");
    r
}

/// Reply when a room of that name already exists.
pub open spec fn room_exists_view(room: Seq<char>) -> Seq<char> {
    "Room "@ + room + " already exists\n"@
}

/// Builds the duplicate-room reply line.
pub fn room_exists_text(room: &str) -> (r: String)
    ensures
        r@ == room_exists_view(room@),
{
    let mut r = String::from_str("Room ");
    r.append(room);
    r.append(" already exists\n");
    r
}

/// Confirmation after joining a room.
pub open spec fn joined_view(room: Seq<char>) -> Seq<char> {
    "You joined room "@ + room + "\n"@
}

/// Builds the join confirmation line.
pub fn joined_text(room: &str) -> (r: String)
    ensures
        r@ == joined_view(room@),
{
    let mut r = String::from_str("You joined room ");
    r.append(room);
    r.append("\n");
    r
}

/// Confirmation after leaving a room.
pub open spec fn left_view(room: Seq<char>) -> Seq<char> {
    "You left room "@ + room + "\n"@
}

/// Builds the leave confirmation line.
pub fn left_text(room: &str) -> (r: String)
    ensures
        r@ == left_view(room@),
{
    let mut r = String::from_str("You left room ");
    r.append(room);
    r.append("\n");
    r
}

/// Payload of the system notice published when a user disconnects.
pub open spec fn departure_text_view(user: Seq<char>) -> Seq<char> {
    "[i] "@ + user + " disconnected\n"@
}

/// Builds the departure notice payload.
pub fn departure_text(user: &str) -> (r: String)
    ensures
        r@ == departure_text_view(user@),
{
    let mut r = String::from_str("[i] ");
    r.append(user);
    r.append(" disconnected\n");
    r
}

} // verus!
