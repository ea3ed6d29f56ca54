use vstd::prelude::*;
use vstd::arithmetic::div_mod::{lemma_fundamental_div_mod, lemma_fundamental_div_mod_converse};
use crate::channel::RingChannel;

verus! {

/// The word that stands for a silent sample (the bit pattern of zero).
pub const SILENCE: u32 = 0;

/// What a channel holds after the words of `s` were pushed one by one into a
/// channel holding `q`: words that arrive while it is full are dropped.
pub open spec fn push_all(q: Seq<u32>, s: Seq<u32>, cap: nat) -> Seq<u32> {
    if q.len() + s.len() <= cap {
        q + s
    } else {
        (q + s).take(cap as int)
    }
}

/// The number of interleaved frames in a block of `len` words with `ch`
/// channels; a trailing partial frame counts as a frame.
pub open spec fn frame_count(len: nat, ch: nat) -> nat {
    if len % ch == 0 {
        len / ch
    } else {
        len / ch + 1
    }
}

/// The channel-0 word of each interleaved frame of `data`.
pub open spec fn first_channel(data: Seq<u32>, ch: nat) -> Seq<u32> {
    Seq::new(frame_count(data.len(), ch), |k: int| data[k * ch])
}

/// The word that the render side plays for frame `k`, given the words `q`
/// that were queued: silence once they run out.
pub open spec fn queued_or_silence(q: Seq<u32>, k: int) -> u32 {
    if k < q.len() {
        q[k]
    } else {
        SILENCE
    }
}

/// An interleaved output block of `len` words with `ch` channels, each frame
/// holding the next queued word in every channel.
pub open spec fn rendered(q: Seq<u32>, len: nat, ch: nat) -> Seq<u32> {
    Seq::new(len, |i: int| queued_or_silence(q, i / (ch as int)))
}

pub open spec fn min_nat(a: nat, b: nat) -> nat {
    if a <= b {
        a
    } else {
        b
    }
}

/// Pushing any words never lets a channel exceed its capacity, pushing into
/// a full channel leaves it unchanged, and with room for every word the
/// words are appended in order.
pub proof fn lemma_channel_bounded(q: Seq<u32>, s: Seq<u32>, cap: nat)
    requires
        q.len() <= cap,
    ensures
        push_all(q, s, cap).len() <= cap,
        q.len() == cap ==> push_all(q, s, cap) == q,
        q.len() + s.len() <= cap ==> push_all(q, s, cap) == q + s,
{
    if q.len() == cap && s.len() > 0 {
        assert((q + s).take(cap as int) =~= q);
    }
    if q.len() == cap && s.len() == 0 {
        assert(q + s =~= q);
    }
}

/// Pushing words never disturbs the words already queued: they stay, in
/// order, at the front of the channel.
pub proof fn lemma_queued_words_kept(q: Seq<u32>, s: Seq<u32>, cap: nat)
    requires
        q.len() <= cap,
    ensures
        push_all(q, s, cap).len() >= q.len(),
        push_all(q, s, cap).take(q.len() as int) == q,
{
    assert(push_all(q, s, cap).take(q.len() as int) =~= q);
}

/// Taking `n` words and then `m` more yields the `n + m` oldest words, in
/// the order they were queued.
pub proof fn lemma_pull_in_order(q: Seq<u32>, n: nat, m: nat)
    requires
        n + m <= q.len(),
    ensures
        q.take(n as int) + q.skip(n as int).take(m as int) == q.take((n + m) as int),
        q.skip(n as int).skip(m as int) == q.skip((n + m) as int),
{
    assert(q.take(n as int) + q.skip(n as int).take(m as int) =~= q.take((n + m) as int));
    assert(q.skip(n as int).skip(m as int) =~= q.skip((n + m) as int));
}

proof fn lemma_push_all_step(q: Seq<u32>, s: Seq<u32>, i: int, cap: nat)
    requires
        0 <= i < s.len(),
        q.len() <= cap,
    ensures
        ({
            let cur = push_all(q, s.take(i), cap);
            &&& cur.len() <= cap
            &&& cur.len() < cap ==> push_all(q, s.take(i + 1), cap) == cur.push(s[i])
            &&& cur.len() >= cap ==> push_all(q, s.take(i + 1), cap) == cur
        }),
{
    let cur = push_all(q, s.take(i), cap);
    let t = q + s.take(i);
    let t1 = q + s.take(i + 1);
    assert(t1 == t.push(s[i]));
    if t.len() < cap {
        assert(cur == t);
    } else {
        assert(t1.take(cap as int) =~= t.take(cap as int));
    }
}

proof fn lemma_frame_start(k: int, ch: int, len: int)
    requires
        ch > 0,
        len >= 0,
        0 <= k < frame_count(len as nat, ch as nat),
    ensures
        0 <= k * ch < len,
        k * ch + ch <= len || k + 1 == frame_count(len as nat, ch as nat),
        k + 1 == frame_count(len as nat, ch as nat) ==> len <= k * ch + ch,
{
    lemma_fundamental_div_mod(len, ch);
    let q = len / ch;
    let r = len % ch;
    assert(len == ch * q + r);
    assert(0 <= r < ch);
    if r == 0 {
        assert(k < q);
        assert(k * ch + ch <= q * ch) by (nonlinear_arith)
            requires k < q, ch > 0;
        if k + 1 == q {
            assert(len <= k * ch + ch) by (nonlinear_arith)
                requires k + 1 == q, len == ch * q + r, r == 0;
        }
    } else {
        assert(k <= q);
        assert(k * ch <= q * ch) by (nonlinear_arith)
            requires k <= q, ch > 0;
        if k == q {
            assert(len <= k * ch + ch) by (nonlinear_arith)
                requires k == q, len == ch * q + r, r < ch;
        }
        if k < q {
            assert(k * ch + ch <= q * ch) by (nonlinear_arith)
                requires k < q, ch > 0;
        }
    }
    assert(0 <= k * ch) by (nonlinear_arith)
        requires k >= 0, ch > 0;
}

proof fn lemma_frame_count_bounds(len: int, ch: int)
    requires
        ch > 0,
        len >= 0,
    ensures
        frame_count(len as nat, ch as nat) <= len,
        len > 0 ==> frame_count(len as nat, ch as nat) > 0,
        len == 0 ==> frame_count(len as nat, ch as nat) == 0,
{
    lemma_fundamental_div_mod(len, ch);
    let q = len / ch;
    let r = len % ch;
    assert(q <= ch * q) by (nonlinear_arith)
        requires ch > 0, q >= 0;
    if len == 0 {
        lemma_fundamental_div_mod_converse(len, ch, 0, 0);
    }
    if len > 0 && r == 0 {
        assert(q > 0) by (nonlinear_arith)
            requires len == ch * q + r, r == 0, len > 0, q >= 0;
    }
}

/// Pushes every word of `frame` into `chan`, dropping the words that find it
/// full.
pub fn emit_frame(chan: &mut RingChannel, frame: &Vec<u32>)
    requires
        old(chan).wf(),
    ensures
        final(chan).wf(),
        final(chan).cap() == old(chan).cap(),
        final(chan)@ == push_all(old(chan)@, frame@, old(chan).cap()),
{
    let ghost q = chan@;
    let ghost cap = chan.cap();
    let mut i: usize = 0;
    assert(q + frame@.take(0) =~= q);
    while i < frame.len()
        invariant
            i <= frame.len(),
            chan.wf(),
            chan.cap() == cap,
            q.len() <= cap,
            chan@ == push_all(q, frame@.take(i as int), cap),
        decreases frame.len() - i,
    {
        proof {
            lemma_push_all_step(q, frame@, i as int, cap);
        }
        chan.push(frame[i]);
        i = i + 1;
    }
    assert(frame@.take(i as int) =~= frame@);
}

/// Handles one capture block of `data`, interleaved with `channels`
/// channels: the channel-0 word of each frame is pushed into `chan`, and
/// dropped if it finds the channel full.
pub fn capture_block(chan: &mut RingChannel, data: &[u32], channels: usize)
    requires
        old(chan).wf(),
        channels > 0,
    ensures
        final(chan).wf(),
        final(chan).cap() == old(chan).cap(),
        final(chan)@ == push_all(old(chan)@, first_channel(data@, channels as nat), old(chan).cap()),
{
    let ghost q = chan@;
    let ghost cap = chan.cap();
    let ghost s = first_channel(data@, channels as nat);
    proof {
        lemma_frame_count_bounds(data@.len() as int, channels as int);
    }
    let frames: usize = if data.len() % channels == 0 {
        data.len() / channels
    } else {
        data.len() / channels + 1
    };
    let dlen: usize = data.len();
    let mut k: usize = 0;
    assert(q + s.take(0) =~= q);
    while k < frames
        invariant
            dlen == data@.len(),
            s == first_channel(data@, channels as nat),
            frames == frame_count(data@.len(), channels as nat),
            s.len() == frames,
            k <= frames,
            channels > 0,
            chan.wf(),
            chan.cap() == cap,
            q.len() <= cap,
            chan@ == push_all(q, s.take(k as int), cap),
        decreases frames - k,
    {
        proof {
            lemma_frame_start(k as int, channels as int, data@.len() as int);
            lemma_push_all_step(q, s, k as int, cap);
        }
        let pos: usize = k * channels;
        assert(s[k as int] == data@[pos as int]);
        chan.push(data[pos]);
        k = k + 1;
    }
    assert(s.take(k as int) =~= s);
}

/// Fills one render block of `len` words, interleaved with `channels`
/// channels: each frame takes the next word from `chan`, or silence when it
/// is empty, and repeats it in every channel.
pub fn render_block(chan: &mut RingChannel, len: usize, channels: usize) -> (out: Vec<u32>)
    requires
        old(chan).wf(),
        channels > 0,
    ensures
        final(chan).wf(),
        final(chan).cap() == old(chan).cap(),
        out@ == rendered(old(chan)@, len as nat, channels as nat),
        final(chan)@ == old(chan)@.skip(
            min_nat(frame_count(len as nat, channels as nat), old(chan)@.len()) as int,
        ),
{
    let ghost q = chan@;
    let ghost cap = chan.cap();
    let ghost ch = channels as int;
    proof {
        lemma_frame_count_bounds(len as int, channels as int);
    }
    let frames: usize = if len % channels == 0 {
        len / channels
    } else {
        len / channels + 1
    };
    let mut out: Vec<u32> = Vec::with_capacity(len);
    let mut k: usize = 0;
    while k < frames
        invariant
            frames == frame_count(len as nat, channels as nat),
            k <= frames,
            channels > 0,
            ch == channels,
            chan.wf(),
            chan.cap() == cap,
            k < frames ==> out@.len() == k * ch,
            k == frames ==> out@.len() == len,
            out@.len() <= len,
            forall|i: int| 0 <= i < out@.len() ==> #[trigger] out@[i] == queued_or_silence(q, i / ch),
            chan@ == q.skip(min_nat(k as nat, q.len()) as int),
        decreases frames - k,
    {
        proof {
            lemma_frame_start(k as int, ch, len as int);
        }
        let word = match chan.pop() {
            Some(w) => w,
            None => SILENCE,
        };
        assert(word == queued_or_silence(q, k as int));
        let start: usize = k * channels;
        let mut c: usize = 0;
        while c < channels && start + c < len
            invariant
                0 <= start == k * ch < len,
                start + c <= len,
                c <= channels,
                ch == channels,
                out@.len() == start + c,
                word == queued_or_silence(q, k as int),
                forall|i: int| 0 <= i < out@.len() ==> #[trigger] out@[i] == queued_or_silence(q, i / ch),
            decreases channels - c,
        {
            proof {
                lemma_fundamental_div_mod_converse(start + c, ch, k as int, c as int);
            }
            out.push(word);
            c = c + 1;
        }
        proof {
            lemma_frame_start(k as int, ch, len as int);
        }
        assert((k + 1) * ch == k * ch + ch) by (nonlinear_arith);
        k = k + 1;
        assert(chan@ =~= q.skip(min_nat(k as nat, q.len()) as int));
    }
    assert(out@ =~= rendered(q, len as nat, channels as nat));
    out
}

/// Takes exactly `n` words from `chan`, oldest first, when it holds at least
/// that many; otherwise takes nothing.
pub fn pull_frame(chan: &mut RingChannel, n: usize) -> (r: Option<Vec<u32>>)
    requires
        old(chan).wf(),
    ensures
        final(chan).wf(),
        final(chan).cap() == old(chan).cap(),
        old(chan)@.len() < n ==> r.is_none() && final(chan)@ == old(chan)@,
        old(chan)@.len() >= n ==> r.is_some() && r.unwrap()@ == old(chan)@.take(n as int)
            && final(chan)@ == old(chan)@.skip(n as int),
{
    if chan.len() < n {
        return None;
    }
    let ghost q = chan@;
    let mut frame: Vec<u32> = Vec::with_capacity(n);
    let mut i: usize = 0;
    while i < n
        invariant
            i <= n <= q.len(),
            chan.wf(),
            chan.cap() == old(chan).cap(),
            frame@ == q.take(i as int),
            chan@ == q.skip(i as int),
        decreases n - i,
    {
        let w = match chan.pop() {
            Some(w) => w,
            None => SILENCE,
        };
        frame.push(w);
        i = i + 1;
        assert(frame@ =~= q.take(i as int));
        assert(chan@ =~= q.skip(i as int));
    }
    Some(frame)
}

} // verus!
