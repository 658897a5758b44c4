//! The setlist extractor: walks the token sequence of a parsed document,
//! finds the first container element carrying the setlist marker class,
//! and collects the text of every song-label anchor under each list item
//! of that container, in document order.
use vstd::prelude::*;
use vstd::string::StringExecFns;
use crate::errors::ExtractionError;
use crate::tokens::HtmlToken;
use crate::tokens::HtmlTokenV;
use crate::tokens::html_tokens;
use crate::tokens::tokenize;

verus! {

/// The class that marks the setlist container.
pub open spec fn setlist_class() -> Seq<char> {
    "setlistList"@
}

/// The class that marks a song-title anchor.
pub open spec fn song_label_class() -> Seq<char> {
    "songLabel"@
}

/// True when the class list carries the given class, by case-sensitive
/// exact match.
pub open spec fn has_class(classes: Seq<Seq<char>>, c: Seq<char>) -> bool {
    exists|i: int| 0 <= i < classes.len() && classes[i] == c
}

/// True of an opening token with the given tag and a class list carrying
/// the given class.
pub open spec fn is_marked_open(t: HtmlTokenV, tag: Seq<char>, class: Seq<char>) -> bool {
    match t {
        HtmlTokenV::Open { tag: tg, classes } => tg == tag && has_class(classes, class),
        _ => false,
    }
}

/// True of an opening token with the given tag, whatever its classes.
pub open spec fn is_tag_open(t: HtmlTokenV, tag: Seq<char>) -> bool {
    match t {
        HtmlTokenV::Open { tag: tg, classes: _ } => tg == tag,
        _ => false,
    }
}

/// An opening token of the setlist container: a `div` carrying the setlist
/// marker class.
pub open spec fn is_setlist_open(t: HtmlTokenV) -> bool {
    is_marked_open(t, "div"@, setlist_class())
}

/// An opening token of a list item.
pub open spec fn is_li_open(t: HtmlTokenV) -> bool {
    is_tag_open(t, "li"@)
}

/// An opening token of a song-label anchor: an `a` carrying the song-label
/// marker class.
pub open spec fn is_song_anchor_open(t: HtmlTokenV) -> bool {
    is_marked_open(t, "a"@, song_label_class())
}

/// The number of tokens of `s` that lie before the closing token that ends
/// the subtree a scan is `depth + 1` levels inside; `s.len()` when the
/// walk ends first.
pub open spec fn find_close(s: Seq<HtmlTokenV>, depth: nat) -> nat
    decreases s.len(),
{
    if s.len() == 0 {
        0
    } else {
        match s[0] {
            HtmlTokenV::Close => if depth == 0 {
                0
            } else {
                (1 + find_close(s.drop_first(), (depth - 1) as nat)) as nat
            },
            HtmlTokenV::Open { tag: _, classes: _ } => (1 + find_close(
                s.drop_first(),
                depth + 1,
            )) as nat,
            HtmlTokenV::Text { text: _ } => (1 + find_close(s.drop_first(), depth)) as nat,
        }
    }
}

pub proof fn lemma_find_close_le(s: Seq<HtmlTokenV>, depth: nat)
    ensures
        find_close(s, depth) <= s.len(),
    decreases s.len(),
{
    if s.len() > 0 {
        match s[0] {
            HtmlTokenV::Close => {
                if depth > 0 {
                    lemma_find_close_le(s.drop_first(), (depth - 1) as nat);
                }
            },
            HtmlTokenV::Open { tag: _, classes: _ } => {
                lemma_find_close_le(s.drop_first(), depth + 1);
            },
            HtmlTokenV::Text { text: _ } => {
                lemma_find_close_le(s.drop_first(), depth);
            },
        }
    }
}

/// The contents of the subtree whose opening token stands at position `i`
/// of `s`: the tokens strictly between `i` and its matching close.
pub open spec fn subtree_at(s: Seq<HtmlTokenV>, i: int) -> Seq<HtmlTokenV>
    recommends
        0 <= i < s.len(),
{
    let rest = s.skip(i + 1);
    rest.take(find_close(rest, 0) as int)
}

/// The concatenation of all text tokens of `s`, in order, with whitespace
/// kept as encountered.
pub open spec fn all_text(s: Seq<HtmlTokenV>) -> Seq<char>
    decreases s.len(),
{
    if s.len() == 0 {
        Seq::empty()
    } else {
        (match s[0] {
            HtmlTokenV::Text { text } => text,
            _ => Seq::empty(),
        }) + all_text(s.drop_first())
    }
}

/// The titles contributed by the song-label anchors of `s`, in document
/// order: one entry per anchor opening token that carries the song-label
/// class, holding the concatenated text of that anchor's subtree. Anchors
/// without the class contribute nothing.
pub open spec fn anchor_titles(s: Seq<HtmlTokenV>) -> Seq<Seq<char>>
    decreases s.len(),
{
    if s.len() == 0 {
        Seq::empty()
    } else if is_song_anchor_open(s[0]) {
        seq![all_text(subtree_at(s, 0))] + anchor_titles(s.drop_first())
    } else {
        anchor_titles(s.drop_first())
    }
}

/// The titles gathered per list item: for each list-item opening token of
/// `s`, in order, the anchor titles of that item's subtree. A nested list
/// item is scanned again when its own opening token is reached, so its
/// anchors count once per enclosing list item, as a descendant walk has it.
pub open spec fn li_titles(s: Seq<HtmlTokenV>) -> Seq<Seq<char>>
    decreases s.len(),
{
    if s.len() == 0 {
        Seq::empty()
    } else if is_li_open(s[0]) {
        anchor_titles(subtree_at(s, 0)) + li_titles(s.drop_first())
    } else {
        li_titles(s.drop_first())
    }
}

/// The position of the first setlist-container opening token; `s.len()`
/// when there is none.
pub open spec fn container_pos(s: Seq<HtmlTokenV>) -> nat
    decreases s.len(),
{
    if s.len() == 0 {
        0
    } else if is_setlist_open(s[0]) {
        0
    } else {
        (1 + container_pos(s.drop_first())) as nat
    }
}

/// What extraction yields on a token walk: nothing when no token opens the
/// setlist container, otherwise the per-list-item anchor titles of the
/// first container's subtree.
pub open spec fn extract_titles(s: Seq<HtmlTokenV>) -> Option<Seq<Seq<char>>> {
    let p = container_pos(s);
    if p == s.len() {
        None
    } else {
        Some(li_titles(subtree_at(s, p as int)))
    }
}

fn vec_has_class(classes: &Vec<String>, needle: &String) -> (r: bool)
    ensures
        r == has_class(classes.deep_view(), needle@),
{
    let mut i: usize = 0;
    while i < classes.len()
        invariant
            i <= classes.len(),
            forall|j: int| 0 <= j < i ==> classes.deep_view()[j] != needle@,
        decreases classes.len() - i,
    {
        if classes[i].eq(needle) {
            proof {
                assert(classes.deep_view()[i as int] == needle@);
            }
            return true;
        }
        i = i + 1;
    }
    false
}

fn is_setlist_open_exec(t: &HtmlToken) -> (r: bool)
    ensures
        r == is_setlist_open(t.deep_view()),
{
    match t {
        HtmlToken::Open { tag, classes } => {
            let d = String::from_str("div");
            let c = String::from_str("setlistList");
            tag.eq(&d) && vec_has_class(classes, &c)
        },
        _ => false,
    }
}

fn is_li_open_exec(t: &HtmlToken) -> (r: bool)
    ensures
        r == is_li_open(t.deep_view()),
{
    match t {
        HtmlToken::Open { tag, classes: _ } => {
            let l = String::from_str("li");
            tag.eq(&l)
        },
        _ => false,
    }
}

fn is_song_anchor_exec(t: &HtmlToken) -> (r: bool)
    ensures
        r == is_song_anchor_open(t.deep_view()),
{
    match t {
        HtmlToken::Open { tag, classes } => {
            let a = String::from_str("a");
            let c = String::from_str("songLabel");
            tag.eq(&a) && vec_has_class(classes, &c)
        },
        _ => false,
    }
}

/// The window of the walk between two positions, as a token sequence.
pub open spec fn window(ts: Seq<HtmlTokenV>, from: int, to: int) -> Seq<HtmlTokenV> {
    ts.subrange(from, to)
}

fn find_close_exec(ts: &Vec<HtmlToken>, start: usize, end: usize) -> (r: usize)
    requires
        start <= end <= ts.len(),
    ensures
        r as int == start + find_close(window(ts.deep_view(), start as int, end as int), 0),
        start <= r <= end,
{
    proof {
        lemma_find_close_le(window(ts.deep_view(), start as int, end as int), 0);
    }
    let mut i = start;
    let mut depth: usize = 0;
    while i < end
        invariant
            start <= i <= end <= ts.len(),
            depth <= i - start,
            find_close(window(ts.deep_view(), start as int, end as int), 0) == (i - start)
                + find_close(window(ts.deep_view(), i as int, end as int), depth as nat),
        decreases end - i,
    {
        let ghost w = window(ts.deep_view(), i as int, end as int);
        proof {
            assert(w[0] == ts.deep_view()[i as int]);
            assert(w.drop_first() =~= window(ts.deep_view(), i as int + 1, end as int));
        }
        match &ts[i] {
            HtmlToken::Close => {
                if depth == 0 {
                    proof {
                        lemma_find_close_le(window(ts.deep_view(), start as int, end as int), 0);
                    }
                    return i;
                }
                depth = depth - 1;
            },
            HtmlToken::Open { tag: _, classes: _ } => {
                depth = depth + 1;
            },
            HtmlToken::Text { text: _ } => {},
        }
        i = i + 1;
    }
    proof {
        assert(window(ts.deep_view(), end as int, end as int).len() == 0);
    }
    end
}

fn collect_text(ts: &Vec<HtmlToken>, start: usize, end: usize) -> (r: String)
    requires
        start <= end <= ts.len(),
    ensures
        r@ == all_text(window(ts.deep_view(), start as int, end as int)),
{
    let mut out = String::new();
    let mut i = start;
    while i < end
        invariant
            start <= i <= end <= ts.len(),
            out@ + all_text(window(ts.deep_view(), i as int, end as int)) == all_text(
                window(ts.deep_view(), start as int, end as int),
            ),
        decreases end - i,
    {
        let ghost w = window(ts.deep_view(), i as int, end as int);
        proof {
            assert(w[0] == ts.deep_view()[i as int]);
            assert(w.drop_first() =~= window(ts.deep_view(), i as int + 1, end as int));
        }
        match &ts[i] {
            HtmlToken::Text { text } => {
                out.append(text.as_str());
            },
            _ => {},
        }
        i = i + 1;
    }
    proof {
        assert(window(ts.deep_view(), end as int, end as int).len() == 0);
        assert(out@ + Seq::<char>::empty() =~= out@);
    }
    out
}

fn collect_anchor_titles(ts: &Vec<HtmlToken>, start: usize, end: usize, out: &mut Vec<String>)
    requires
        start <= end <= ts.len(),
    ensures
        final(out).deep_view() == old(out).deep_view() + anchor_titles(
            window(ts.deep_view(), start as int, end as int),
        ),
{
    let mut i = start;
    while i < end
        invariant
            start <= i <= end <= ts.len(),
            out.deep_view() + anchor_titles(window(ts.deep_view(), i as int, end as int)) == old(
                out,
            ).deep_view() + anchor_titles(window(ts.deep_view(), start as int, end as int)),
        decreases end - i,
    {
        let ghost w = window(ts.deep_view(), i as int, end as int);
        proof {
            assert(w[0] == ts.deep_view()[i as int]);
            assert(w.drop_first() =~= window(ts.deep_view(), i as int + 1, end as int));
        }
        if is_song_anchor_exec(&ts[i]) {
            let close = find_close_exec(ts, i + 1, end);
            let title = collect_text(ts, i + 1, close);
            proof {
                assert(w.skip(1) =~= window(ts.deep_view(), i as int + 1, end as int));
                assert(w.skip(1).take(find_close(w.skip(1), 0) as int) =~= window(
                    ts.deep_view(),
                    i as int + 1,
                    close as int,
                ));
            }
            out.push(title);
        }
        i = i + 1;
    }
    proof {
        assert(window(ts.deep_view(), end as int, end as int).len() == 0);
        assert(out.deep_view() + Seq::<Seq<char>>::empty() =~= out.deep_view());
    }
}

fn collect_li_titles(ts: &Vec<HtmlToken>, start: usize, end: usize, out: &mut Vec<String>)
    requires
        start <= end <= ts.len(),
    ensures
        final(out).deep_view() == old(out).deep_view() + li_titles(
            window(ts.deep_view(), start as int, end as int),
        ),
{
    let mut i = start;
    while i < end
        invariant
            start <= i <= end <= ts.len(),
            out.deep_view() + li_titles(window(ts.deep_view(), i as int, end as int)) == old(
                out,
            ).deep_view() + li_titles(window(ts.deep_view(), start as int, end as int)),
        decreases end - i,
    {
        let ghost w = window(ts.deep_view(), i as int, end as int);
        proof {
            assert(w[0] == ts.deep_view()[i as int]);
            assert(w.drop_first() =~= window(ts.deep_view(), i as int + 1, end as int));
        }
        if is_li_open_exec(&ts[i]) {
            let close = find_close_exec(ts, i + 1, end);
            proof {
                assert(w.skip(1) =~= window(ts.deep_view(), i as int + 1, end as int));
                assert(w.skip(1).take(find_close(w.skip(1), 0) as int) =~= window(
                    ts.deep_view(),
                    i as int + 1,
                    close as int,
                ));
            }
            collect_anchor_titles(ts, i + 1, close, out);
        }
        i = i + 1;
    }
    proof {
        assert(window(ts.deep_view(), end as int, end as int).len() == 0);
        assert(out.deep_view() + Seq::<Seq<char>>::empty() =~= out.deep_view());
    }
}

/// Extracts the song titles of the setlist page whose HTML text is given:
/// parses the text, locates the first element carrying the setlist marker
/// class, and returns the text of every song-label anchor under its list
/// items, in document order. Fails, rather than returning an empty list,
/// when no element carries the marker class.
pub fn scrape_songs_from_setlist(response_text: &str) -> (r: Result<Vec<String>, ExtractionError>)
    ensures
        match r {
            Ok(titles) => extract_titles(html_tokens(response_text@)) == Some(titles.deep_view()),
            Err(e) => extract_titles(html_tokens(response_text@)) is None && e
                == ExtractionError::NoContainer,
        },
{
    let toks = tokenize(response_text);
    let ghost s = toks.deep_view();
    let n = toks.len();
    let mut i: usize = 0;
    while i < n
        invariant
            i <= n == toks.len(),
            s == toks.deep_view(),
            s == html_tokens(response_text@),
            forall|j: int| 0 <= j < i ==> !is_setlist_open(#[trigger] s[j]),
        decreases n - i,
    {
        if is_setlist_open_exec(&toks[i]) {
            proof {
                lemma_container_pos_at(s, i as int);
                assert(s.skip(i as int + 1) =~= window(s, i as int + 1, n as int));
            }
            let close = find_close_exec(&toks, i + 1, n);
            proof {
                assert(s.skip(i as int + 1).take(find_close(s.skip(i as int + 1), 0) as int)
                    =~= window(s, i as int + 1, close as int));
            }
            let mut titles: Vec<String> = Vec::new();
            collect_li_titles(&toks, i + 1, close, &mut titles);
            proof {
                assert(titles.deep_view() =~= li_titles(subtree_at(s, i as int)));
            }
            return Ok(titles);
        }
        i = i + 1;
    }
    proof {
        lemma_container_pos_none(s);
    }
    Err(ExtractionError::NoContainer)
}

/// The first setlist opening token decides the container: if nothing
/// before `i` opens it and `s[i]` does, the container stands at `i`.
pub proof fn lemma_container_pos_at(s: Seq<HtmlTokenV>, i: int)
    requires
        0 <= i < s.len(),
        is_setlist_open(s[i]),
        forall|j: int| 0 <= j < i ==> !is_setlist_open(#[trigger] s[j]),
    ensures
        container_pos(s) == i,
    decreases i,
{
    if i > 0 {
        assert forall|j: int| 0 <= j < i - 1 implies !is_setlist_open(
            #[trigger] s.drop_first()[j],
        ) by {
            assert(s.drop_first()[j] == s[j + 1]);
        }
        assert(s.drop_first()[i - 1] == s[i]);
        lemma_container_pos_at(s.drop_first(), i - 1);
    }
}

/// With no setlist opening token anywhere, the scan runs off the end.
pub proof fn lemma_container_pos_none(s: Seq<HtmlTokenV>)
    requires
        forall|j: int| 0 <= j < s.len() ==> !is_setlist_open(#[trigger] s[j]),
    ensures
        container_pos(s) == s.len(),
    decreases s.len(),
{
    if s.len() > 0 {
        assert forall|j: int| 0 <= j < s.drop_first().len() implies !is_setlist_open(
            #[trigger] s.drop_first()[j],
        ) by {
            assert(s.drop_first()[j] == s[j + 1]);
        }
        lemma_container_pos_none(s.drop_first());
    }
}

/// A document with no element carrying the setlist marker class extracts
/// nothing: the failure is reported rather than an empty sequence.
pub proof fn lemma_no_container_fails(s: Seq<HtmlTokenV>)
    requires
        forall|j: int| 0 <= j < s.len() ==> !is_setlist_open(#[trigger] s[j]),
    ensures
        extract_titles(s) is None,
{
    lemma_container_pos_none(s);
}

/// The number of song-label anchor opening tokens of `s`.
pub open spec fn count_song_anchors(s: Seq<HtmlTokenV>) -> nat
    decreases s.len(),
{
    if s.len() == 0 {
        0
    } else {
        (if is_song_anchor_open(s[0]) {
            1nat
        } else {
            0nat
        }) + count_song_anchors(s.drop_first())
    }
}

/// The number of list-item opening tokens of `s`.
pub open spec fn count_li_opens(s: Seq<HtmlTokenV>) -> nat
    decreases s.len(),
{
    if s.len() == 0 {
        0
    } else {
        (if is_li_open(s[0]) {
            1nat
        } else {
            0nat
        }) + count_li_opens(s.drop_first())
    }
}

/// Each song-label anchor contributes exactly one title: the collection
/// neither invents nor drops entries.
pub proof fn lemma_one_title_per_anchor(s: Seq<HtmlTokenV>)
    ensures
        anchor_titles(s).len() == count_song_anchors(s),
    decreases s.len(),
{
    if s.len() > 0 {
        lemma_one_title_per_anchor(s.drop_first());
    }
}

/// Anchors lacking the song-label marker class are excluded: a stretch of
/// the walk whose opening tokens never carry that class on an anchor
/// yields no titles, whatever text it holds.
pub proof fn lemma_unmarked_anchors_excluded(s: Seq<HtmlTokenV>)
    requires
        forall|j: int| 0 <= j < s.len() ==> !is_song_anchor_open(#[trigger] s[j]),
    ensures
        anchor_titles(s) == Seq::<Seq<char>>::empty(),
    decreases s.len(),
{
    if s.len() > 0 {
        assert forall|j: int| 0 <= j < s.drop_first().len() implies !is_song_anchor_open(
            #[trigger] s.drop_first()[j],
        ) by {
            assert(s.drop_first()[j] == s[j + 1]);
        }
        lemma_unmarked_anchors_excluded(s.drop_first());
        assert(anchor_titles(s) =~= Seq::<Seq<char>>::empty());
    }
}

/// The positions of `s` at which a song-label anchor opens, in order.
pub open spec fn song_anchor_positions(s: Seq<HtmlTokenV>) -> Seq<int>
    decreases s.len(),
{
    if s.len() == 0 {
        Seq::empty()
    } else {
        let rest = song_anchor_positions(s.drop_first()).map_values(|p: int| p + 1);
        if is_song_anchor_open(s[0]) {
            seq![0int] + rest
        } else {
            rest
        }
    }
}

/// The anchor positions are sound, complete and strictly increasing: each
/// names a song-label anchor opening token, every such token is named, and
/// document order is kept.
pub proof fn lemma_song_anchor_positions(s: Seq<HtmlTokenV>)
    ensures
        forall|k: int|
            0 <= k < song_anchor_positions(s).len() ==> 0 <= #[trigger] song_anchor_positions(s)[k]
                < s.len() && is_song_anchor_open(s[song_anchor_positions(s)[k]]),
        forall|p: int|
            0 <= p < s.len() && is_song_anchor_open(#[trigger] s[p]) ==> song_anchor_positions(
                s,
            ).contains(p),
        forall|k: int|
            0 <= k && k + 1 < song_anchor_positions(s).len() ==> #[trigger] song_anchor_positions(
                s,
            )[k] < song_anchor_positions(s)[k + 1],
    decreases s.len(),
{
    if s.len() > 0 {
        let d = s.drop_first();
        lemma_song_anchor_positions(d);
        let sub = song_anchor_positions(d);
        let rest = sub.map_values(|p: int| p + 1);
        assert forall|p: int| 0 <= p < s.len() && is_song_anchor_open(#[trigger] s[p]) implies
            song_anchor_positions(s).contains(p) by {
            if p == 0 {
                assert(song_anchor_positions(s)[0] == 0int);
            } else {
                assert(d[p - 1] == s[p]);
                let k = choose|k: int| 0 <= k < sub.len() && sub[k] == p - 1;
                if is_song_anchor_open(s[0]) {
                    assert(song_anchor_positions(s)[k + 1] == p);
                } else {
                    assert(song_anchor_positions(s)[k] == p);
                }
            }
        }
    }
}

/// Anchors carrying the song-label class are kept, anchors without it are
/// excluded, whatever text they hold: the titles and the marked anchor
/// positions count the same, and the title at each index is the subtree
/// text of the anchor at the matching position.
pub proof fn lemma_titles_match_marked_anchors(s: Seq<HtmlTokenV>)
    ensures
        anchor_titles(s).len() == song_anchor_positions(s).len(),
        forall|k: int|
            0 <= k < anchor_titles(s).len() ==> #[trigger] anchor_titles(s)[k] == all_text(
                subtree_at(s, song_anchor_positions(s)[k]),
            ),
    decreases s.len(),
{
    if s.len() > 0 {
        let d = s.drop_first();
        lemma_titles_match_marked_anchors(d);
        lemma_song_anchor_positions(d);
        let sub = song_anchor_positions(d);
        assert forall|k: int| 0 <= k < anchor_titles(s).len() implies #[trigger] anchor_titles(
            s,
        )[k] == all_text(subtree_at(s, song_anchor_positions(s)[k])) by {
            if is_song_anchor_open(s[0]) && k == 0 {
                assert(song_anchor_positions(s)[0] == 0int);
            } else {
                let k2: int = if is_song_anchor_open(s[0]) {
                    k - 1
                } else {
                    k
                };
                let p = sub[k2];
                assert(anchor_titles(s)[k] == anchor_titles(d)[k2]);
                assert(song_anchor_positions(s)[k] == p + 1);
                assert(anchor_titles(d)[k2] == all_text(subtree_at(d, p)));
                assert(s.skip(p + 2) =~= d.skip(p + 1));
                assert(subtree_at(s, p + 1) == subtree_at(d, p));
            }
        }
    }
}

/// A container whose list items each hold exactly one song-label anchor
/// yields exactly one title per list item: over such a stretch of the
/// walk, the titles and the list-item opening tokens count the same.
pub proof fn lemma_one_title_per_list_item(s: Seq<HtmlTokenV>)
    requires
        forall|j: int|
            0 <= j < s.len() && #[trigger] is_li_open(s[j]) ==> count_song_anchors(
                subtree_at(s, j),
            ) == 1,
    ensures
        li_titles(s).len() == count_li_opens(s),
    decreases s.len(),
{
    if s.len() > 0 {
        let d = s.drop_first();
        assert forall|j: int|
            0 <= j < d.len() && #[trigger] is_li_open(d[j]) implies count_song_anchors(
            subtree_at(d, j),
        ) == 1 by {
            assert(d[j] == s[j + 1]);
            assert(d.skip(j + 1) =~= s.skip(j + 2));
            assert(subtree_at(d, j) == subtree_at(s, j + 1));
        }
        lemma_one_title_per_list_item(d);
        if is_li_open(s[0]) {
            assert(count_song_anchors(subtree_at(s, 0)) == 1);
            lemma_one_title_per_anchor(subtree_at(s, 0));
        }
    }
}

} // verus!
