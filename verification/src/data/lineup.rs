//! The order of the rows of a piano roll is a sorting of the channels that
//! are shown.

use vstd::prelude::*;
use vstd::multiset::Multiset;
use vstd::seq_lib::to_multiset_build;
use crate::data::midi::{
    config_of,
    lineup,
    listed_before,
    name_before,
    placed,
    shown,
    ChannelModel,
    MidiChannelConfig,
};

verus! {

/// Whether no channel of the list is listed before one that stands
/// earlier.
pub open spec fn in_order(entries: Seq<(String, MidiChannelConfig)>, list: Seq<ChannelModel>) -> bool {
    forall|i: int, j: int|
        0 <= i < j < list.len() ==> !listed_before(entries, #[trigger] list[j], #[trigger] list[i])
}

/// The channels that are shown among those of the first `upto` tracks, in
/// the order of their tracks.
pub open spec fn shown_channels(
    entries: Seq<(String, MidiChannelConfig)>,
    channels: Seq<Option<ChannelModel>>,
    upto: int,
) -> Seq<ChannelModel>
    decreases upto,
{
    if upto <= 0 {
        Seq::empty()
    } else {
        let before = shown_channels(entries, channels, upto - 1);
        match channels[upto - 1] {
            Some(c) => match shown(entries, c) {
                Some(v) => before.push(v),
                None => before,
            },
            None => before,
        }
    }
}

/// The dictionary order of names is a strict order that leaves no two
/// different names unordered: of two names at most one comes before the
/// other, and a name that comes neither before a second nor the second
/// before a third does not come before the third.
pub proof fn lemma_name_order(a: Seq<char>, b: Seq<char>, c: Seq<char>, i: int)
    requires
        0 <= i,
    ensures
        name_before(a, b, i) ==> !name_before(b, a, i),
        !name_before(b, a, i) && !name_before(c, b, i) ==> !name_before(c, a, i),
    decreases a.len() - i,
{
    if i < a.len() && i < b.len() {
        if a[i] == b[i] {
            if i < c.len() && c[i] == b[i] {
                lemma_name_order(a, b, c, i + 1);
            } else {
                lemma_name_order(a, b, b, i + 1);
            }
        }
    }
    if !name_before(b, a, i) && !name_before(c, b, i) && i < a.len() {
        assert(i < b.len());
        assert(i < c.len());
        vstd::utf8::char_u32_cast(a[i], a[i] as u32);
        vstd::utf8::char_u32_cast(b[i], b[i] as u32);
        vstd::utf8::char_u32_cast(c[i], c[i] as u32);
    }
}

/// The order in which channels are listed is such an order too.
pub proof fn lemma_listing_order(
    entries: Seq<(String, MidiChannelConfig)>,
    a: ChannelModel,
    b: ChannelModel,
    c: ChannelModel,
)
    ensures
        listed_before(entries, a, b) ==> !listed_before(entries, b, a),
        !listed_before(entries, b, a) && !listed_before(entries, c, b) ==> !listed_before(entries, c, a),
{
    lemma_name_order(a.name, b.name, c.name, 0);
}

/// A list in order stays in order when a channel is put in its place, and
/// holds that channel besides those that it held.
pub proof fn lemma_placed(entries: Seq<(String, MidiChannelConfig)>, list: Seq<ChannelModel>, c: ChannelModel)
    requires
        in_order(entries, list),
    ensures
        in_order(entries, placed(entries, list, c)),
        placed(entries, list, c).to_multiset() == list.to_multiset().insert(c),
    decreases list.len(),
{
    let out = placed(entries, list, c);
    if list.len() == 0 {
        assert(list =~= Seq::<ChannelModel>::empty());
        assert(out =~= Seq::<ChannelModel>::empty().push(c));
        to_multiset_build(Seq::<ChannelModel>::empty(), c);
    } else {
        let last = list.last();
        let rest = list.drop_last();
        assert(list =~= rest.push(last));
        to_multiset_build(rest, last);
        if listed_before(entries, c, last) {
            assert forall|i: int, j: int| 0 <= i < j < rest.len() implies !listed_before(
                entries,
                #[trigger] rest[j],
                #[trigger] rest[i],
            ) by {
                assert(rest[j] == list[j] && rest[i] == list[i]);
            }
            lemma_placed(entries, rest, c);
            let inner = placed(entries, rest, c);
            to_multiset_build(inner, last);
            assert(out.to_multiset() =~= list.to_multiset().insert(c));
            assert forall|i: int, j: int| 0 <= i < j < out.len() implies !listed_before(
                entries,
                #[trigger] out[j],
                #[trigger] out[i],
            ) by {
                if j < inner.len() {
                    assert(out[j] == inner[j] && out[i] == inner[i]);
                } else {
                    assert(out[j] == last);
                    assert(out[i] == inner[i]);
                    assert(inner.to_multiset().count(inner[i]) > 0) by {
                        vstd::seq_lib::to_multiset_contains(inner, inner[i]);
                        assert(inner.contains(inner[i]));
                    }
                    if inner[i] == c {
                        lemma_listing_order(entries, c, last, last);
                    } else {
                        assert(rest.to_multiset().count(inner[i]) > 0);
                        vstd::seq_lib::to_multiset_contains(rest, inner[i]);
                        let k = choose|k: int| 0 <= k < rest.len() && rest[k] == inner[i];
                        assert(list[k] == inner[i]);
                        assert(!listed_before(entries, list[list.len() - 1], list[k]));
                    }
                }
            }
        } else {
            to_multiset_build(list, c);
            assert forall|i: int, j: int| 0 <= i < j < out.len() implies !listed_before(
                entries,
                #[trigger] out[j],
                #[trigger] out[i],
            ) by {
                if j < list.len() {
                    assert(out[j] == list[j] && out[i] == list[i]);
                } else {
                    assert(out[j] == c && out[i] == list[i]);
                    if i < list.len() - 1 {
                        assert(!listed_before(entries, list[list.len() - 1], list[i]));
                        lemma_listing_order(entries, list[i], last, c);
                    }
                }
            }
        }
    }
}

/// The rows of a piano roll are the channels that are shown, each once,
/// and no row is listed before a row above it.
pub proof fn lemma_lineup_sorted(
    entries: Seq<(String, MidiChannelConfig)>,
    channels: Seq<Option<ChannelModel>>,
    upto: int,
)
    ensures
        in_order(entries, lineup(entries, channels, upto)),
        lineup(entries, channels, upto).to_multiset() == shown_channels(
            entries,
            channels,
            upto,
        ).to_multiset(),
    decreases upto,
{
    if upto > 0 {
        lemma_lineup_sorted(entries, channels, upto - 1);
        let before = lineup(entries, channels, upto - 1);
        if let Some(c) = channels[upto - 1] {
            if let Some(v) = shown(entries, c) {
                lemma_placed(entries, before, v);
                to_multiset_build(shown_channels(entries, channels, upto - 1), v);
            }
        }
    }
}

} // verus!
