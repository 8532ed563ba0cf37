//! Document segmentation and reassembly.
//!
//! A document is split at the single chat-container marker into a preamble
//! (kept verbatim) and a tail. The fixed trailer markup is removed from the
//! tail, what remains is split into message fragments at the message marker,
//! each fragment is tested against the configuration, and the survivors are
//! reassembled in their original order between the preamble and the trailer.

use vstd::prelude::*;

use crate::config::{config_matches, has_patterns, Config, ConfigV, FilterError};
use crate::text::{
    find_occurrences, lemma_occurrences_props, match_at, occurrences, remove_pattern,
    without_pattern,
};
use vstd::string::*;

verus! {

/// The fixed opening marker of the single chat container.
pub open spec fn chat_marker() -> Seq<char> {
    "<div class=\"Chat\">"@
}

/// The fixed opening marker of a message fragment.
pub open spec fn message_marker() -> Seq<char> {
    "<div class=\"ChatMessage\""@
}

/// The fixed closing markup of a document.
pub open spec fn trailer() -> Seq<char> {
    "</div>\n</body>\n</html>"@
}

/// How often the chat-container marker occurs in the document.
pub open spec fn container_count(doc: Seq<char>) -> nat {
    occurrences(doc, chat_marker(), 0).len()
}

/// The document up to and including the chat-container marker.
pub open spec fn doc_preamble(doc: Seq<char>) -> Seq<char> {
    doc.subrange(0, occurrences(doc, chat_marker(), 0)[0] + chat_marker().len() as int)
}

/// The document after the chat-container marker.
pub open spec fn doc_tail(doc: Seq<char>) -> Seq<char> {
    doc.subrange(
        occurrences(doc, chat_marker(), 0)[0] + chat_marker().len() as int,
        doc.len() as int,
    )
}

/// The tail with every occurrence of the trailer markup removed.
pub open spec fn doc_body(doc: Seq<char>) -> Seq<char> {
    without_pattern(doc_tail(doc), trailer())
}

/// The start positions of the fragments of `text`: every occurrence of the
/// marker, preceded by position 0 when the text does not begin with one.
pub open spec fn fragment_starts(text: Seq<char>, m: Seq<char>) -> Seq<int> {
    let occ = occurrences(text, m, 0);
    if occ.len() > 0 && occ[0] == 0 {
        occ
    } else {
        seq![0] + occ
    }
}

/// The fragments of `text`: each begins at a marker occurrence (or at the
/// start of the text, for a leading stretch before the first marker) and runs
/// to just before the next occurrence, or to the end of the text. An empty
/// text has no fragments.
pub open spec fn fragments_of(text: Seq<char>, m: Seq<char>) -> Seq<Seq<char>> {
    if text.len() == 0 {
        Seq::empty()
    } else {
        let st = fragment_starts(text, m);
        Seq::new(
            st.len(),
            |k: int|
                text.subrange(
                    st[k],
                    if k + 1 < st.len() {
                        st[k + 1]
                    } else {
                        text.len() as int
                    },
                ),
        )
    }
}

/// The message fragments of the document's body.
pub open spec fn doc_fragments(doc: Seq<char>) -> Seq<Seq<char>> {
    fragments_of(doc_body(doc), message_marker())
}

/// The concatenation, in order, of the fragments the configuration keeps.
pub open spec fn kept(frags: Seq<Seq<char>>, v: ConfigV) -> Seq<char>
    decreases frags.len(),
{
    if frags.len() == 0 {
        Seq::empty()
    } else {
        kept(frags.drop_last(), v) + (if config_matches(v, frags.last()) {
            frags.last()
        } else {
            Seq::empty()
        })
    }
}

/// What filtering produces on a well-formed document: the preamble, the kept
/// fragments in order, and the trailer.
pub open spec fn filter_output(doc: Seq<char>, v: ConfigV) -> Seq<char> {
    doc_preamble(doc) + kept(doc_fragments(doc), v) + trailer()
}

/// The fragment start positions are strictly increasing, begin at 0, and lie
/// inside the text.
pub proof fn lemma_fragment_starts_props(text: Seq<char>, m: Seq<char>)
    requires
        m.len() > 0,
        text.len() > 0,
    ensures
        fragment_starts(text, m).len() > 0,
        fragment_starts(text, m)[0] == 0,
        forall|k: int|
            0 <= k < fragment_starts(text, m).len() ==> 0 <= #[trigger] fragment_starts(text, m)[k]
                < text.len(),
        forall|k: int|
            0 <= k < fragment_starts(text, m).len() - 1 ==> #[trigger] fragment_starts(text, m)[k]
                < fragment_starts(text, m)[k + 1],
{
    let occ = occurrences(text, m, 0);
    let st = fragment_starts(text, m);
    lemma_occurrences_props(text, m, 0);
    assert(forall|k: int|
        0 <= k < occ.len() ==> 0 <= #[trigger] occ[k] && occ[k] + m.len() <= text.len());
    if occ.len() > 0 && occ[0] == 0 {
    } else {
        assert(st == seq![0] + occ);
        assert(st[0] == 0);
        assert forall|k: int| 0 <= k < st.len() implies 0 <= #[trigger] st[k] < text.len() by {
            if k > 0 {
                assert(st[k] == occ[k - 1]);
            }
        }
        assert forall|k: int| 0 <= k < st.len() - 1 implies #[trigger] st[k] < st[k + 1] by {
            if k == 0 {
                assert(st[1] == occ[0]);
                if occ.len() > 0 && occ[0] != 0 {
                }
            } else {
                assert(st[k] == occ[k - 1]);
                assert(st[k + 1] == occ[k]);
                assert(occ[k - 1] + m.len() <= occ[k]);
            }
        }
    }
}

/// Filters a chat-log document: fails with a structural error unless the
/// chat-container marker occurs exactly once, keeps the preamble, drops the
/// fragments the configuration rejects, and closes with the trailer. A
/// configuration with no pattern at all fails on the first fragment.
#[verifier::rlimit(80)]
pub fn filter_chat_log(document: String, config: &Config) -> (r: Result<String, FilterError>)
    requires
        config.wf(),
    ensures
        container_count(document@) != 1 ==> (r matches Err(FilterError::Structure { found })
            && found == container_count(document@)),
        container_count(document@) == 1 && !has_patterns(config@) && doc_fragments(
            document@,
        ).len() > 0 ==> r matches Err(FilterError::NoPatterns),
        container_count(document@) == 1 && (has_patterns(config@) || doc_fragments(
            document@,
        ).len() == 0) ==> (r matches Ok(out) && out@ == filter_output(document@, config@)),
{
    let doc: &str = document.as_str();
    let tl = doc.unicode_len();
    proof {
        reveal_strlit("<div class=\"Chat\">");
        reveal_strlit("<div class=\"ChatMessage\"");
        reveal_strlit("</div>\n</body>\n</html>");
    }
    let occ = find_occurrences(doc, "<div class=\"Chat\">");
    if occ.len() != 1 {
        return Err(FilterError::Structure { found: occ.len() });
    }
    proof {
        lemma_occurrences_props(doc@, chat_marker(), 0);
        assert(occurrences(doc@, chat_marker(), 0)[0] == occ@[0] as int);
        assert(match_at(doc@, chat_marker(), occ@[0] as int));
    }
    let marker_len = "<div class=\"Chat\">".unicode_len();
    let cut = occ[0] + marker_len;
    let preamble = doc.substring_char(0, cut);
    let tail = doc.substring_char(cut, tl);
    let body = remove_pattern(tail, "</div>\n</body>\n</html>");
    proof {
        assert(body@ == doc_body(document@));
    }
    let bl = body.unicode_len();
    let mut out = String::new();
    out.append(preamble);
    if bl > 0 {
        let frag_occ = find_occurrences(body.as_str(), "<div class=\"ChatMessage\"");
        proof {
            lemma_fragment_starts_props(body@, message_marker());
        }
        let ghost st = fragment_starts(body@, message_marker());
        let ghost socc = occurrences(body@, message_marker(), 0);
        let mut starts: Vec<usize> = Vec::new();
        if frag_occ.len() == 0 || frag_occ[0] != 0 {
            starts.push(0);
        }
        proof {
            if socc.len() == 0 || socc[0] != 0 {
                assert(st == seq![0] + socc);
                assert(st[0] == 0);
            } else {
                assert(st == socc);
            }
            assert(starts@.map_values(|u: usize| u as int) =~= st.take(starts@.len() as int));
        }
        let mut i: usize = 0;
        while i < frag_occ.len()
            invariant
                i <= frag_occ.len(),
                st == fragment_starts(body@, message_marker()),
                socc == occurrences(body@, message_marker(), 0),
                frag_occ@.map_values(|u: usize| u as int) == socc,
                starts@.map_values(|u: usize| u as int) == st.take(starts@.len() as int),
                starts@.len() == i + st.len() - socc.len(),
            decreases frag_occ.len() - i,
        {
            starts.push(frag_occ[i]);
            proof {
                if socc.len() > 0 && socc[0] == 0 {
                    assert(st == socc);
                } else {
                    assert(st == seq![0] + socc);
                }
                assert(st[starts@.len() - 1] == socc[i as int]);
                assert(starts@.map_values(|u: usize| u as int) =~= st.take(starts@.len() as int));
            }
            i = i + 1;
        }
        let ghost frags = fragments_of(body@, message_marker());
        proof {
            assert(starts@.len() == st.len());
            assert(st.take(st.len() as int) =~= st);
            assert(frags.len() == st.len());
            assert(kept(frags.take(0), config@) =~= Seq::<char>::empty());
            assert(out@ =~= doc_preamble(document@) + kept(frags.take(0), config@));
        }
        let n = starts.len();
        let mut k: usize = 0;
        while k < n
            invariant
                config.wf(),
                n == starts.len(),
                bl == body@.len(),
                0 < bl,
                body@ == doc_body(document@),
                container_count(document@) == 1,
                st == fragment_starts(body@, message_marker()),
                frags == fragments_of(body@, message_marker()),
                frags == doc_fragments(document@),
                starts@.map_values(|u: usize| u as int) == st,
                n == st.len(),
                frags.len() == st.len(),
                st[0] == 0,
                forall|m: int| 0 <= m < st.len() ==> 0 <= #[trigger] st[m] < bl,
                forall|m: int| 0 <= m < st.len() - 1 ==> #[trigger] st[m] < st[m + 1],
                k <= n,
                1 <= n,
                k > 0 ==> has_patterns(config@),
                out@ == doc_preamble(document@) + kept(frags.take(k as int), config@),
            decreases n - k,
        {
            proof {
                assert(st[k as int] == starts@[k as int] as int);
                if k + 1 < n {
                    assert(st[k + 1] == starts@[k + 1] as int);
                }
            }
            let s = starts[k];
            let e = if k + 1 < n {
                starts[k + 1]
            } else {
                bl
            };
            let frag = body.as_str().substring_char(s, e);
            proof {
                assert(frags[k as int] == frag@);
            }
            match config.matches(frag) {
                Err(err) => {
                    proof {
                        assert(!has_patterns(config@));
                        assert(doc_fragments(document@).len() > 0);
                    }
                    return Err(err);
                },
                Ok(true) => {
                    out.append(frag);
                },
                Ok(false) => {},
            }
            proof {
                assert(frags.take(k + 1).drop_last() =~= frags.take(k as int));
                assert(frags.take(k + 1).last() == frags[k as int]);
                assert(out@ =~= doc_preamble(document@) + kept(frags.take(k + 1), config@));
            }
            k = k + 1;
        }
        proof {
            assert(frags.take(n as int) =~= frags);
        }
    }
    out.append("</div>\n</body>\n</html>");
    proof {
        if body@.len() == 0 {
            assert(doc_fragments(document@).len() == 0);
            assert(kept(doc_fragments(document@), config@) =~= Seq::<char>::empty());
            assert(out@ =~= filter_output(document@, config@));
        } else {
            assert(out@ =~= filter_output(document@, config@));
        }
    }
    Ok(out)
}

} // verus!
