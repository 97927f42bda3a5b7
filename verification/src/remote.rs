//! A model of the remote install procedure: the authorized-keys store as a
//! sequence of lines, and the read loop that appends each non-blank payload
//! line unless it already appears verbatim.
//!
//! The procedure itself runs on the destination (see
//! [`crate::install::remote_install_script`]); this model states its
//! behaviour, and the laws below — idempotence above all — are proved of it.
//!
//! The model diverges from the shell in two corners that no normalized
//! payload reaches. The shell's `read -r` strips surrounding field-separator
//! whitespace from each line before the verbatim check and append, while
//! [`install_line`] keeps the raw line: the two differ only for an interior
//! line padded with blanks, which no key line carries. And [`split_lines`]
//! counts a final unterminated fragment as a line, where the shell's read
//! loop drops it: a normalized payload always ends with a line terminator.

use crate::install::normalized_content;
use crate::text::{bytes_eq, clone_bytes, is_space, is_space_byte, lemma_trim_ends_not_space, trim};
use vstd::prelude::*;

verus! {

/// A line is blank when it holds nothing but whitespace.
pub open spec fn is_blank_line(l: Seq<u8>) -> bool {
    forall|i: int| 0 <= i < l.len() ==> is_space_byte(l[i])
}

/// The input split at line-feed bytes, `cur` holding the partial line read
/// so far; a final unterminated fragment still counts as a line.
pub open spec fn lines_from(s: Seq<u8>, cur: Seq<u8>) -> Seq<Seq<u8>>
    decreases s.len(),
{
    if s.len() == 0 {
        if cur.len() == 0 {
            Seq::empty()
        } else {
            seq![cur]
        }
    } else if s[0] == 10 {
        seq![cur] + lines_from(s.skip(1), Seq::empty())
    } else {
        lines_from(s.skip(1), cur.push(s[0]))
    }
}

/// The lines of a payload, as the remote read loop sees them.
pub open spec fn split_lines(s: Seq<u8>) -> Seq<Seq<u8>> {
    lines_from(s, Seq::empty())
}

/// One line as the remote loop handles it: a blank line is skipped, a line
/// already present verbatim is left alone, any other is appended.
pub open spec fn install_line(store: Seq<Seq<u8>>, line: Seq<u8>) -> Seq<Seq<u8>> {
    if is_blank_line(line) || store.contains(line) {
        store
    } else {
        store.push(line)
    }
}

/// The payload lines applied to the store in order.
pub open spec fn install_lines(store: Seq<Seq<u8>>, lines: Seq<Seq<u8>>) -> Seq<Seq<u8>>
    decreases lines.len(),
{
    if lines.len() == 0 {
        store
    } else {
        install_lines(install_line(store, lines[0]), lines.skip(1))
    }
}

/// The authorized-keys store after the remote procedure has consumed a
/// payload.
pub open spec fn remote_install(store: Seq<Seq<u8>>, payload: Seq<u8>) -> Seq<Seq<u8>> {
    install_lines(store, split_lines(payload))
}

/// How often a line occurs in the store.
pub open spec fn occurrences(store: Seq<Seq<u8>>, l: Seq<u8>) -> nat
    decreases store.len(),
{
    if store.len() == 0 {
        0
    } else {
        (if store[0] == l {
            1nat
        } else {
            0nat
        }) + occurrences(store.skip(1), l)
    }
}

/// A store without duplicates: no line occurs twice.
pub open spec fn no_duplicates(store: Seq<Seq<u8>>) -> bool {
    forall|l: Seq<u8>| occurrences(store, l) <= 1
}

/// Whether some non-blank line among `lines` equals `l`.
spec fn offers_line(lines: Seq<Seq<u8>>, l: Seq<u8>) -> bool {
    exists|i: int| 0 <= i < lines.len() && !is_blank_line(#[trigger] lines[i]) && lines[i] == l
}

proof fn lemma_contains_unfold(store: Seq<Seq<u8>>, l: Seq<u8>)
    requires
        store.len() > 0,
    ensures
        store.contains(l) <==> (store[0] == l || store.skip(1).contains(l)),
{
    if store.contains(l) {
        let j = choose|j: int| 0 <= j < store.len() && store[j] == l;
        if j > 0 {
            assert(store.skip(1)[j - 1] == l);
        }
    }
    if store.skip(1).contains(l) {
        let j = choose|j: int| 0 <= j < store.skip(1).len() && store.skip(1)[j] == l;
        assert(store[j + 1] == l);
    }
}

proof fn lemma_contains_push(store: Seq<Seq<u8>>, x: Seq<u8>, l: Seq<u8>)
    ensures
        store.push(x).contains(l) <==> (store.contains(l) || x == l),
{
    if store.push(x).contains(l) {
        let j = choose|j: int| 0 <= j < store.push(x).len() && store.push(x)[j] == l;
        if j < store.len() {
            assert(store[j] == l);
        }
    }
    if store.contains(l) {
        let j = choose|j: int| 0 <= j < store.len() && store[j] == l;
        assert(store.push(x)[j] == l);
    }
    if x == l {
        assert(store.push(x)[store.len() as int] == l);
    }
}

proof fn lemma_occurrences_push(store: Seq<Seq<u8>>, x: Seq<u8>, l: Seq<u8>)
    ensures
        occurrences(store.push(x), l) == occurrences(store, l) + (if x == l {
            1nat
        } else {
            0nat
        }),
    decreases store.len(),
{
    if store.len() == 0 {
        assert(store.push(x)[0] == x);
        assert(store.push(x).skip(1) =~= Seq::<Seq<u8>>::empty());
        assert(occurrences(Seq::<Seq<u8>>::empty(), l) == 0);
    } else {
        lemma_occurrences_push(store.skip(1), x, l);
        assert(store.push(x)[0] == store[0]);
        assert(store.push(x).skip(1) =~= store.skip(1).push(x));
    }
}

proof fn lemma_occurrences_zero_iff_absent(store: Seq<Seq<u8>>, l: Seq<u8>)
    ensures
        occurrences(store, l) == 0 <==> !store.contains(l),
    decreases store.len(),
{
    if store.len() > 0 {
        lemma_occurrences_zero_iff_absent(store.skip(1), l);
        lemma_contains_unfold(store, l);
    }
}

proof fn lemma_install_line_contains(store: Seq<Seq<u8>>, line: Seq<u8>, l: Seq<u8>)
    ensures
        install_line(store, line).contains(l) <==> (store.contains(l) || (!is_blank_line(line)
            && line == l)),
{
    if !is_blank_line(line) && !store.contains(line) {
        lemma_contains_push(store, line, l);
    }
}

proof fn lemma_install_lines_contains(store: Seq<Seq<u8>>, lines: Seq<Seq<u8>>, l: Seq<u8>)
    ensures
        install_lines(store, lines).contains(l) <==> (store.contains(l) || offers_line(lines, l)),
    decreases lines.len(),
{
    if lines.len() == 0 {
        assert(!offers_line(lines, l));
    } else {
        let store1 = install_line(store, lines[0]);
        lemma_install_lines_contains(store1, lines.skip(1), l);
        lemma_install_line_contains(store, lines[0], l);
        if offers_line(lines.skip(1), l) {
            let i = choose|i: int|
                0 <= i < lines.skip(1).len() && !is_blank_line(lines.skip(1)[i]) && lines.skip(
                    1,
                )[i] == l;
            assert(lines[i + 1] == lines.skip(1)[i]);
            assert(offers_line(lines, l));
        }
        if !is_blank_line(lines[0]) && lines[0] == l {
            assert(offers_line(lines, l));
        }
        if offers_line(lines, l) && !(store1.contains(l)) {
            let i = choose|i: int|
                0 <= i < lines.len() && !is_blank_line(lines[i]) && lines[i] == l;
            assert(i != 0);
            assert(lines.skip(1)[i - 1] == lines[i]);
            assert(offers_line(lines.skip(1), l));
        }
    }
}

proof fn lemma_install_line_no_duplicates(store: Seq<Seq<u8>>, line: Seq<u8>)
    requires
        no_duplicates(store),
    ensures
        no_duplicates(install_line(store, line)),
{
    if !is_blank_line(line) && !store.contains(line) {
        assert forall|l: Seq<u8>| occurrences(install_line(store, line), l) <= 1 by {
            lemma_occurrences_push(store, line, l);
            if line == l {
                lemma_occurrences_zero_iff_absent(store, l);
            }
        }
    }
}

proof fn lemma_install_lines_no_duplicates(store: Seq<Seq<u8>>, lines: Seq<Seq<u8>>)
    requires
        no_duplicates(store),
    ensures
        no_duplicates(install_lines(store, lines)),
    decreases lines.len(),
{
    if lines.len() > 0 {
        lemma_install_line_no_duplicates(store, lines[0]);
        lemma_install_lines_no_duplicates(install_line(store, lines[0]), lines.skip(1));
    }
}

/// The empty store holds no line at all.
pub proof fn lemma_empty_store_no_duplicates()
    ensures
        no_duplicates(Seq::<Seq<u8>>::empty()),
        forall|l: Seq<u8>| occurrences(Seq::<Seq<u8>>::empty(), l) == 0,
{
}

/// A run of the procedure never removes a line, adds every non-blank payload
/// line, and adds nothing else: afterwards a line stands in the store if and
/// only if it stood there before or is a non-blank line of the payload. In
/// particular a blank line is never appended.
pub proof fn lemma_install_membership(store: Seq<Seq<u8>>, payload: Seq<u8>, l: Seq<u8>)
    ensures
        remote_install(store, payload).contains(l) <==> (store.contains(l) || (split_lines(
            payload,
        ).contains(l) && !is_blank_line(l))),
{
    lemma_install_lines_contains(store, split_lines(payload), l);
    let lines = split_lines(payload);
    if offers_line(lines, l) {
        let i = choose|i: int| 0 <= i < lines.len() && !is_blank_line(lines[i]) && lines[i] == l;
        assert(lines[i] == l);
    }
    if lines.contains(l) && !is_blank_line(l) {
        let i = choose|i: int| 0 <= i < lines.len() && lines[i] == l;
        assert(offers_line(lines, l));
    }
}

/// A run whose non-blank payload lines all stand in the store already leaves
/// the store exactly as it was.
pub proof fn lemma_install_unchanged_when_present(store: Seq<Seq<u8>>, payload: Seq<u8>)
    requires
        forall|i: int|
            0 <= i < split_lines(payload).len() && !is_blank_line(
                #[trigger] split_lines(payload)[i],
            ) ==> store.contains(split_lines(payload)[i]),
    ensures
        remote_install(store, payload) == store,
{
    lemma_install_lines_noop(store, split_lines(payload));
}

proof fn lemma_install_lines_noop(store: Seq<Seq<u8>>, lines: Seq<Seq<u8>>)
    requires
        forall|i: int|
            0 <= i < lines.len() && !is_blank_line(#[trigger] lines[i]) ==> store.contains(
                lines[i],
            ),
    ensures
        install_lines(store, lines) == store,
    decreases lines.len(),
{
    if lines.len() > 0 {
        assert(install_line(store, lines[0]) == store);
        assert(forall|i: int|
            0 <= i < lines.skip(1).len() ==> #[trigger] lines.skip(1)[i] == lines[i + 1]);
        lemma_install_lines_noop(store, lines.skip(1));
    }
}

/// Idempotence: running the procedure twice with the same payload leaves
/// exactly the store that one run leaves.
pub proof fn lemma_install_idempotent(store: Seq<Seq<u8>>, payload: Seq<u8>)
    ensures
        remote_install(remote_install(store, payload), payload) == remote_install(store, payload),
{
    let once = remote_install(store, payload);
    let lines = split_lines(payload);
    assert forall|i: int|
        0 <= i < lines.len() && !is_blank_line(#[trigger] lines[i]) implies once.contains(
        lines[i],
    ) by {
        lemma_install_lines_contains(store, lines, lines[i]);
        assert(offers_line(lines, lines[i]));
    }
    lemma_install_lines_noop(once, lines);
}

/// Starting from a store without duplicate lines — the store that begins
/// empty among them — each non-blank payload line stands in the store
/// exactly once after one run, and still exactly once after a second run
/// with the same payload.
pub proof fn lemma_repeated_install_exactly_once(store: Seq<Seq<u8>>, payload: Seq<u8>, l: Seq<u8>)
    requires
        no_duplicates(store),
        split_lines(payload).contains(l),
        !is_blank_line(l),
    ensures
        occurrences(remote_install(store, payload), l) == 1,
        occurrences(remote_install(remote_install(store, payload), payload), l) == 1,
{
    let once = remote_install(store, payload);
    lemma_install_membership(store, payload, l);
    lemma_install_lines_no_duplicates(store, split_lines(payload));
    lemma_occurrences_zero_iff_absent(once, l);
    lemma_install_idempotent(store, payload);
}

proof fn lemma_lines_of_single_line(t: Seq<u8>, cur: Seq<u8>)
    requires
        forall|i: int| 0 <= i < t.len() ==> t[i] != 10,
    ensures
        lines_from(t + seq![10u8], cur) == seq![cur + t],
    decreases t.len(),
{
    let s = t + seq![10u8];
    if t.len() == 0 {
        assert(s[0] == 10);
        assert(s.skip(1) =~= Seq::<u8>::empty());
        assert(seq![cur] + lines_from(Seq::<u8>::empty(), Seq::<u8>::empty()) =~= seq![cur]);
        assert(cur + t =~= cur);
    } else {
        assert(s[0] == t[0]);
        assert(s.skip(1) =~= t.skip(1) + seq![10u8]);
        lemma_lines_of_single_line(t.skip(1), cur.push(t[0]));
        assert(cur.push(t[0]) + t.skip(1) =~= cur + t);
    }
}

/// The normalized form of content without interior line breaks is read by
/// the remote loop as a single line: the trimmed content itself.
pub proof fn lemma_normalized_single_line(content: Seq<u8>)
    requires
        trim(content).len() > 0,
        forall|i: int| 0 <= i < trim(content).len() ==> trim(content)[i] != 10,
    ensures
        split_lines(normalized_content(content)) == seq![trim(content)],
{
    lemma_lines_of_single_line(trim(content), Seq::<u8>::empty());
    assert(Seq::<u8>::empty() + trim(content) =~= trim(content));
}

/// End to end for one key: its normalized content installed into a store
/// that starts empty leaves exactly that key line, and a second run with the
/// same content leaves the store exactly as the first did.
pub proof fn lemma_single_key_installed_once(content: Seq<u8>)
    requires
        trim(content).len() > 0,
        forall|i: int| 0 <= i < trim(content).len() ==> trim(content)[i] != 10,
    ensures
        remote_install(Seq::<Seq<u8>>::empty(), normalized_content(content)) == seq![
            trim(content),
        ],
        remote_install(
            remote_install(Seq::<Seq<u8>>::empty(), normalized_content(content)),
            normalized_content(content),
        ) == seq![trim(content)],
{
    let t = trim(content);
    let empty = Seq::<Seq<u8>>::empty();
    lemma_normalized_single_line(content);
    lemma_trim_ends_not_space(content);
    assert(!is_blank_line(t)) by {
        assert(!is_space_byte(t[0]));
    }
    assert(install_line(empty, t) =~= seq![t]);
    assert(seq![t].skip(1) =~= empty);
    assert(install_lines(empty, seq![t]) == install_lines(seq![t], empty));
    lemma_install_idempotent(empty, normalized_content(content));
}

fn is_blank_vec(l: &Vec<u8>) -> (r: bool)
    ensures
        r == is_blank_line(l@),
{
    let mut k: usize = 0;
    while k < l.len()
        invariant
            k <= l.len(),
            forall|m: int| 0 <= m < k ==> is_space_byte(l@[m]),
        decreases l.len() - k,
    {
        if !is_space(l[k]) {
            return false;
        }
        k = k + 1;
    }
    true
}

fn store_contains(store: &Vec<Vec<u8>>, l: &Vec<u8>) -> (r: bool)
    ensures
        r == store.deep_view().contains(l@),
{
    let mut k: usize = 0;
    while k < store.len()
        invariant
            k <= store.len(),
            forall|m: int| 0 <= m < k ==> store.deep_view()[m] != l@,
        decreases store.len() - k,
    {
        proof {
            assert(store@[k as int].deep_view() =~= store@[k as int]@);
        }
        if bytes_eq(&store[k], l) {
            assert(store.deep_view()[k as int] == l@);
            return true;
        }
        k = k + 1;
    }
    false
}

/// The payload split into lines, as the remote read loop consumes them.
pub fn split_lines_vec(s: &Vec<u8>) -> (r: Vec<Vec<u8>>)
    ensures
        r.deep_view() == split_lines(s@),
{
    let mut out: Vec<Vec<u8>> = Vec::new();
    let mut cur: Vec<u8> = Vec::new();
    let mut i: usize = 0;
    proof {
        assert(s@.skip(0) =~= s@);
        assert(out.deep_view() =~= Seq::<Seq<u8>>::empty());
        assert(Seq::<Seq<u8>>::empty() + lines_from(s@, cur@) =~= lines_from(s@, cur@));
    }
    while i < s.len()
        invariant
            i <= s.len(),
            split_lines(s@) == out.deep_view() + lines_from(s@.skip(i as int), cur@),
        decreases s.len() - i,
    {
        let ghost pre = s@.skip(i as int);
        let ghost out0 = out.deep_view();
        let ghost cur0 = cur@;
        if s[i] == 10 {
            out.push(cur);
            cur = Vec::new();
            proof {
                assert(pre[0] == 10);
                assert(pre.skip(1) =~= s@.skip(i + 1));
                assert(cur@ =~= Seq::<u8>::empty());
                assert(out.deep_view() =~~= out0.push(cur0));
                assert(out0.push(cur0) + lines_from(s@.skip(i + 1), cur@) =~= out0 + (seq![cur0]
                    + lines_from(pre.skip(1), Seq::empty())));
            }
        } else {
            cur.push(s[i]);
            proof {
                assert(pre[0] == s@[i as int]);
                assert(pre[0] != 10);
                assert(pre.skip(1) =~= s@.skip(i + 1));
                assert(cur@ =~= cur0.push(s@[i as int]));
            }
        }
        i = i + 1;
    }
    proof {
        assert(s@.skip(s@.len() as int) =~= Seq::<u8>::empty());
    }
    if cur.len() > 0 {
        let ghost out0 = out.deep_view();
        let ghost cur0 = cur@;
        out.push(cur);
        proof {
            assert(out.deep_view() =~~= out0.push(cur0));
            assert(out0.push(cur0) =~= out0 + seq![cur0]);
        }
    } else {
        proof {
            assert(out.deep_view() + Seq::<Seq<u8>>::empty() =~= out.deep_view());
        }
    }
    out
}

/// The remote procedure run over a store: the model the laws above speak of,
/// executable so that a store can be stepped through it.
pub fn apply_remote_install(store: Vec<Vec<u8>>, payload: &Vec<u8>) -> (r: Vec<Vec<u8>>)
    ensures
        r.deep_view() == remote_install(store.deep_view(), payload@),
{
    let ghost store0 = store.deep_view();
    let lines = split_lines_vec(payload);
    let mut st = store;
    let mut k: usize = 0;
    proof {
        assert(lines.deep_view().skip(0) =~= lines.deep_view());
    }
    while k < lines.len()
        invariant
            k <= lines.len(),
            install_lines(st.deep_view(), lines.deep_view().skip(k as int)) == install_lines(
                store0,
                lines.deep_view(),
            ),
        decreases lines.len() - k,
    {
        let ghost rest = lines.deep_view().skip(k as int);
        let ghost st0 = st.deep_view();
        let line = &lines[k];
        proof {
            assert(lines@[k as int].deep_view() =~= lines@[k as int]@);
            assert(rest[0] == lines.deep_view()[k as int]);
            assert(rest[0] == line@);
        }
        if !is_blank_vec(line) && !store_contains(&st, line) {
            st.push(clone_bytes(line));
            proof {
                assert(st.deep_view() =~~= st0.push(line@));
            }
        }
        proof {
            assert(st.deep_view() == install_line(st0, rest[0]));
            assert(rest.skip(1) =~= lines.deep_view().skip(k + 1));
        }
        k = k + 1;
    }
    proof {
        assert(lines.deep_view().skip(lines.deep_view().len() as int) =~= Seq::<Seq<u8>>::empty());
        assert(lines.deep_view() == split_lines(payload@));
    }
    st
}

} // verus!
