//! Library-wide laws, each proved once and for all inputs.

use vstd::prelude::*;

use crate::config::{config_matches, normalized, ConfigV};
use crate::filter::{
    chat_marker, container_count, doc_body, doc_fragments, doc_preamble, doc_tail, filter_output,
    fragment_starts, fragments_of, kept, message_marker, trailer,
};
use crate::text::{concat_all, contains_seq, lemma_concat_all_take_step, lemma_occurrences_props,
    match_at, occurrences};

verus! {

/// Keeping every fragment concatenates them all, in order.
pub proof fn lemma_kept_all(frags: Seq<Seq<char>>, v: ConfigV)
    requires
        forall|k: int| 0 <= k < frags.len() ==> config_matches(v, #[trigger] frags[k]),
    ensures
        kept(frags, v) == concat_all(frags),
    decreases frags.len(),
{
    if frags.len() > 0 {
        assert forall|k: int| 0 <= k < frags.drop_last().len() implies config_matches(
            v,
            #[trigger] frags.drop_last()[k],
        ) by {
            assert(frags.drop_last()[k] == frags[k]);
        }
        lemma_kept_all(frags.drop_last(), v);
        assert(frags.last() == frags[frags.len() - 1]);
    }
}

/// The first `k` fragments of a text concatenate to its prefix up to the
/// start of fragment `k`.
proof fn lemma_fragment_prefix(text: Seq<char>, m: Seq<char>, k: int)
    requires
        m.len() > 0,
        text.len() > 0,
        0 <= k <= fragment_starts(text, m).len(),
    ensures
        concat_all(fragments_of(text, m).take(k)) == text.subrange(
            0,
            if k < fragment_starts(text, m).len() {
                fragment_starts(text, m)[k]
            } else {
                text.len() as int
            },
        ),
    decreases k,
{
    let st = fragment_starts(text, m);
    let frags = fragments_of(text, m);
    crate::filter::lemma_fragment_starts_props(text, m);
    if k == 0 {
        assert(frags.take(0) =~= Seq::<Seq<char>>::empty());
        assert(text.subrange(0, st[0]) =~= Seq::<char>::empty());
    } else {
        let e: int = if k < st.len() {
            st[k]
        } else {
            text.len() as int
        };
        lemma_fragment_prefix(text, m, k - 1);
        lemma_concat_all_take_step(frags, k - 1);
        assert(frags[k - 1] == text.subrange(st[k - 1], e));
        assert(text.subrange(0, st[k - 1]) + text.subrange(st[k - 1], e) =~= text.subrange(0, e));
    }
}

/// The fragments of a text reassemble to the text itself.
pub proof fn lemma_fragments_reassemble(text: Seq<char>, m: Seq<char>)
    requires
        m.len() > 0,
    ensures
        concat_all(fragments_of(text, m)) == text,
{
    if text.len() == 0 {
        assert(concat_all(fragments_of(text, m)) =~= text);
    } else {
        let st = fragment_starts(text, m);
        let frags = fragments_of(text, m);
        lemma_fragment_prefix(text, m, st.len() as int);
        assert(frags.take(st.len() as int) =~= frags);
        assert(text.subrange(0, text.len() as int) =~= text);
    }
}

/// Law: on a document whose chat-container marker occurs exactly once, the
/// filtered output begins with the document's preamble and ends with the
/// fixed trailer, whatever the configuration keeps in between.
pub proof fn lemma_filter_frame(doc: Seq<char>, v: ConfigV)
    requires
        container_count(doc) == 1,
    ensures
        filter_output(doc, v).len() == doc_preamble(doc).len() + kept(doc_fragments(doc), v).len()
            + trailer().len(),
        filter_output(doc, v).subrange(0, doc_preamble(doc).len() as int) == doc_preamble(doc),
        filter_output(doc, v).subrange(
            filter_output(doc, v).len() - trailer().len(),
            filter_output(doc, v).len() as int,
        ) == trailer(),
{
    let o = filter_output(doc, v);
    let p = doc_preamble(doc);
    let t = trailer();
    assert(o.subrange(0, p.len() as int) =~= p);
    assert(o.subrange(o.len() - t.len(), o.len() as int) =~= t);
}

/// Law: a literal-mode configuration whose only pattern is the empty required
/// pattern keeps every fragment, so filtering reassembles the preamble, the
/// whole body, and the trailer.
pub proof fn lemma_identity_filter(doc: Seq<char>, v: ConfigV)
    requires
        container_count(doc) == 1,
        !v.regex,
        v.required == Some(Seq::<char>::empty()),
        v.forbidden is None,
    ensures
        filter_output(doc, v) == doc_preamble(doc) + doc_body(doc) + trailer(),
{
    let frags = doc_fragments(doc);
    assert forall|k: int| 0 <= k < frags.len() implies config_matches(v, #[trigger] frags[k]) by {
        let t = normalized(v, frags[k]);
        assert(t.subrange(0, 0) =~= Seq::<char>::empty());
        assert(match_at(t, Seq::<char>::empty(), 0));
        assert(contains_seq(t, Seq::<char>::empty()));
    }
    lemma_kept_all(frags, v);
    reveal_strlit("<div class=\"ChatMessage\"");
    lemma_fragments_reassemble(doc_body(doc), message_marker());
}

/// Law: on a document whose tail is exactly the body followed by the
/// trailer, the identity configuration of `lemma_identity_filter` reproduces
/// the document unchanged.
pub proof fn lemma_identity_filter_exact(doc: Seq<char>, v: ConfigV)
    requires
        container_count(doc) == 1,
        !v.regex,
        v.required == Some(Seq::<char>::empty()),
        v.forbidden is None,
        doc_tail(doc) == doc_body(doc) + trailer(),
    ensures
        filter_output(doc, v) == doc,
{
    lemma_identity_filter(doc, v);
    reveal_strlit("<div class=\"Chat\">");
    lemma_occurrences_props(doc, chat_marker(), 0);
    let occ = occurrences(doc, chat_marker(), 0);
    assert(match_at(doc, chat_marker(), occ[0]));
    assert(doc_preamble(doc) + doc_tail(doc) =~= doc);
    assert(filter_output(doc, v) =~= doc);
}

/// Law: when the required and the forbidden pattern are the same, every
/// fragment is dropped — the forbidden test overrides a satisfied required
/// test.
pub proof fn lemma_forbidden_overrides(v: ConfigV, frag: Seq<char>)
    requires
        v.required is Some,
        v.forbidden == v.required,
    ensures
        !config_matches(v, frag),
{
}

/// Law: surviving fragments keep their relative order; of three fragments
/// where the middle one is dropped, the output is the first followed by the
/// third.
pub proof fn lemma_order_preserved(v: ConfigV, f1: Seq<char>, f2: Seq<char>, f3: Seq<char>)
    requires
        config_matches(v, f1),
        !config_matches(v, f2),
        config_matches(v, f3),
    ensures
        kept(seq![f1, f2, f3], v) == f1 + f3,
{
    let s = seq![f1, f2, f3];
    assert(s.drop_last() =~= seq![f1, f2]);
    assert(seq![f1, f2].drop_last() =~= seq![f1]);
    assert(seq![f1].drop_last() =~= Seq::<Seq<char>>::empty());
    assert(s.last() == f3);
    assert(seq![f1, f2].last() == f2);
    assert(seq![f1].last() == f1);
    assert(kept(Seq::<Seq<char>>::empty(), v) == Seq::<char>::empty());
    assert(kept(seq![f1], v) =~= f1);
    assert(kept(seq![f1, f2], v) =~= f1);
    assert(kept(s, v) =~= f1 + f3);
}

} // verus!
