//! Sending an answer as a stream of events: a whole answer is cut into small
//! pieces so that it shows up like typed text, and the worker that talks to
//! the model reports its end or its failure on the same channel as the
//! tokens, marked by a control prefix.
use vstd::prelude::*;
use crate::text::{chars_of, has_prefix, owned, push_str, string_of};

verus! {

/// The number of characters in one piece of a streamed answer.
pub const PIECE_CHARS: usize = 4;

/// `s` cut into consecutive pieces of `n` characters (the last one may be
/// shorter).
pub open spec fn pieces(s: Seq<char>, n: nat) -> Seq<Seq<char>>
    decreases s.len(),
{
    if s.len() == 0 || n == 0 {
        seq![]
    } else if s.len() <= n {
        seq![s]
    } else {
        seq![s.take(n as int)] + pieces(s.skip(n as int), n)
    }
}

/// Cuts a text into pieces of `size` characters, in order.
pub fn chunk_chars(text: &str, size: usize) -> (res: Vec<String>)
    requires
        size > 0,
    ensures
        res.deep_view() == pieces(text@, size as nat),
{
    let v = chars_of(text);
    let mut out: Vec<String> = Vec::new();
    let mut idx: usize = 0;
    assert(v@.skip(0) == v@);
    while idx < v.len()
        invariant
            size > 0,
            idx <= v.len(),
            v@ == text@,
            pieces(text@, size as nat) == out.deep_view() + pieces(v@.skip(idx as int), size as nat),
        decreases v.len() - idx,
    {
        let ghost rest = v@.skip(idx as int);
        let end = if v.len() - idx > size {
            idx + size
        } else {
            v.len()
        };
        let piece = string_of(&v, idx, end);
        let ghost before = out.deep_view();
        out.push(piece);
        proof {
            assert(out.deep_view() == before.push(piece@));
            if rest.len() <= size {
                assert(rest == piece@);
                assert(v@.skip(end as int).len() == 0);
                assert(pieces(v@.skip(end as int), size as nat) == Seq::<Seq<char>>::empty());
                assert(before + seq![rest] == before.push(piece@) + Seq::<Seq<char>>::empty());
            } else {
                assert(rest.take(size as int) == piece@);
                assert(rest.skip(size as int) == v@.skip(end as int));
                assert(before + (seq![piece@] + pieces(v@.skip(end as int), size as nat))
                    == before.push(piece@) + pieces(v@.skip(end as int), size as nat));
            }
        }
        idx = end;
    }
    assert(v@.skip(idx as int).len() == 0);
    assert(out.deep_view() + Seq::<Seq<char>>::empty() == out.deep_view());
    out
}

/// Cutting loses nothing: the pieces, put back together, are the text, and
/// each piece holds between one and `n` characters.
pub proof fn law_pieces_rebuild(s: Seq<char>, n: nat)
    requires
        n > 0,
    ensures
        pieces(s, n).flatten() == s,
        forall|i: int|
            0 <= i < pieces(s, n).len() ==> 0 < #[trigger] pieces(s, n)[i].len() <= n,
    decreases s.len(),
{
    if s.len() == 0 {
    } else if s.len() <= n {
        let q = seq![s];
        assert(q.drop_first() =~= Seq::<Seq<char>>::empty());
        assert(q.drop_first().flatten() == Seq::<char>::empty());
        assert(q.flatten() == q.first() + q.drop_first().flatten());
        assert(s + Seq::<char>::empty() == s);
    } else {
        law_pieces_rebuild(s.skip(n as int), n);
        let p = pieces(s, n);
        let r = pieces(s.skip(n as int), n);
        assert(p.first() == s.take(n as int));
        assert(p.drop_first() == r);
        assert(s.take(n as int) + s.skip(n as int) == s);
        assert forall|i: int| 0 <= i < p.len() implies 0 < #[trigger] p[i].len() <= n by {
            if i > 0 {
                assert(p[i] == r[i - 1]);
            }
        }
    }
}

/// The prefix that marks a control message among the tokens.
pub open spec fn control_prefix() -> Seq<char> {
    "__CTL__"@
}

/// A message on the token channel.
pub enum Signal {
    /// A piece of the answer.
    Delta(String),
    /// The answer is complete.
    Done,
    /// The model call failed with this message.
    Failed(String),
    /// A control message of no known kind.
    Ignored,
}

/// The contents of a [`Signal`].
pub enum SignalView {
    Delta(Seq<char>),
    Done,
    Failed(Seq<char>),
    Ignored,
}

impl View for Signal {
    type V = SignalView;

    open spec fn view(&self) -> SignalView {
        match self {
            Signal::Delta(s) => SignalView::Delta(s@),
            Signal::Done => SignalView::Done,
            Signal::Failed(s) => SignalView::Failed(s@),
            Signal::Ignored => SignalView::Ignored,
        }
    }
}

/// What a channel message means: a token unless it carries the control
/// prefix; `DONE` after the prefix ends the answer, `ERR` followed by a
/// message reports a failure.
pub open spec fn signal_of(m: Seq<char>) -> SignalView {
    if has_prefix(m, control_prefix()) {
        let rest = m.skip(7);
        if rest == "DONE"@ {
            SignalView::Done
        } else if has_prefix(rest, "ERR"@) {
            SignalView::Failed(rest.skip(3))
        } else {
            SignalView::Ignored
        }
    } else {
        SignalView::Delta(m)
    }
}

/// Reads one channel message.
pub fn read_signal(m: &str) -> (res: Signal)
    ensures
        res@ == signal_of(m@),
{
    let v = chars_of(m);
    let p = chars_of("__CTL__");
    proof {
        reveal_strlit("__CTL__");
    }
    if !crate::text::starts_with_chars(&v, &p) {
        return Signal::Delta(owned(m));
    }
    let rest = string_of(&v, 7, v.len());
    assert(rest@ == m@.skip(7));
    let r = chars_of(rest.as_str());
    let done = chars_of("DONE");
    if crate::text::chars_eq(&r, &done) {
        return Signal::Done;
    }
    let err = chars_of("ERR");
    proof {
        reveal_strlit("ERR");
    }
    if crate::text::starts_with_chars(&r, &err) {
        let msg = string_of(&r, 3, r.len());
        assert(msg@ == rest@.skip(3));
        return Signal::Failed(msg);
    }
    Signal::Ignored
}

/// The control message that ends an answer.
pub fn done_signal() -> (res: String)
    ensures
        res@ == control_prefix() + "DONE"@,
{
    let mut s = owned("__CTL__");
    push_str(&mut s, "DONE");
    s
}

/// The control message that reports a failed model call.
pub fn error_signal(message: &str) -> (res: String)
    ensures
        res@ == control_prefix() + "ERR"@ + message@,
{
    let mut s = owned("__CTL__");
    push_str(&mut s, "ERR");
    push_str(&mut s, message);
    s
}

/// The control messages read back as what they were written for.
pub proof fn law_signals_round_trip(message: Seq<char>)
    ensures
        signal_of(control_prefix() + "DONE"@) == SignalView::Done,
        signal_of(control_prefix() + "ERR"@ + message) == SignalView::Failed(message),
{
    reveal_strlit("__CTL__");
    reveal_strlit("DONE");
    reveal_strlit("ERR");
    let d = control_prefix() + "DONE"@;
    assert(d.take(7) == control_prefix());
    assert(d.skip(7) == "DONE"@);
    let e = control_prefix() + "ERR"@ + message;
    assert(e.take(7) == control_prefix());
    assert(e.skip(7) == "ERR"@ + message);
    assert(("ERR"@ + message).take(3) == "ERR"@);
    assert(("ERR"@ + message).skip(3) == message);
    assert(("ERR"@ + message) != "DONE"@) by {
        if ("ERR"@ + message) == "DONE"@ {
            assert(("ERR"@ + message)[0] == 'E');
            assert("DONE"@[0] == 'D');
        }
    }
}

} // verus!
