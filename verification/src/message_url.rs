//! Links to Discord messages found in a text, and the previews the bot
//! posts for them.
use vstd::prelude::*;
use vstd::utf8::encode_utf8;

use crate::patterns::{regex_captures, LinkPatterns, MESSAGE_LINK};
use crate::text::{decimal, parse_u64, same_text, spec_decimal, spec_parse_u64, utf8_longer_than};

verus! {

/// The capture group of a message link that names its server.
pub const GUILD_GROUP: &'static str = "guild_id";

/// The capture group of a message link that names its channel.
pub const CHANNEL_GROUP: &'static str = "channel_id";

/// The capture group of a message link that names the message.
pub const MESSAGE_GROUP: &'static str = "message_id";

/// The server, channel and message groups of each message link in `content`.
pub open spec fn link_captures(content: Seq<char>) -> Seq<Seq<Option<Seq<char>>>> {
    regex_captures(MESSAGE_LINK@, content, seq![GUILD_GROUP@, CHANNEL_GROUP@, MESSAGE_GROUP@])
}

/// A message that a link points at.
#[derive(PartialEq, Eq, Debug)]
pub struct MessageLink {
    pub channel_id: u64,
    pub message_id: u64,
}

/// The channel and message ids of the links, in order, whose server group
/// reads `guild`; `None` where such a link lacks a group or names an id that
/// does not parse as a `u64`, or where a link has no server group.
pub open spec fn spec_links(caps: Seq<Seq<Option<Seq<char>>>>, guild: Seq<char>) -> Option<
    Seq<(u64, u64)>,
>
    decreases caps.len(),
{
    if caps.len() == 0 {
        Some(Seq::empty())
    } else {
        match spec_links(caps.drop_last(), guild) {
            None => None,
            Some(links) => {
                let c = caps.last();
                if c[0] is None {
                    None
                } else if c[0]->0 != guild {
                    Some(links)
                } else if c[1] is Some && c[2] is Some && spec_parse_u64(c[1]->0) is Some
                    && spec_parse_u64(c[2]->0) is Some {
                    Some(links.push((spec_parse_u64(c[1]->0)->0, spec_parse_u64(c[2]->0)->0)))
                } else {
                    None
                }
            },
        }
    }
}

/// The views of a list of links.
pub open spec fn links_view(links: Seq<MessageLink>) -> Seq<(u64, u64)> {
    links.map_values(|l: MessageLink| (l.channel_id, l.message_id))
}

proof fn lemma_links_none_prefix(caps: Seq<Seq<Option<Seq<char>>>>, guild: Seq<char>, n: int)
    requires
        0 <= n <= caps.len(),
        spec_links(caps.take(n), guild) is None,
    ensures
        spec_links(caps, guild) is None,
    decreases caps.len(),
{
    if n < caps.len() {
        assert(caps.drop_last().take(n) =~= caps.take(n));
        lemma_links_none_prefix(caps.drop_last(), guild, n);
    } else {
        assert(caps.take(n) =~= caps);
    }
}

/// The links among the captured message links whose server group reads
/// `guild_id`; each capture holds the server, channel and message groups.
pub fn links_from_captures(caps: &Vec<Vec<Option<String>>>, guild_id: u64) -> (r: Option<
    Vec<MessageLink>,
>)
    requires
        forall|k: int| 0 <= k < caps@.len() ==> #[trigger] caps@[k]@.len() == 3,
    ensures
        match r {
            Some(links) => spec_links(caps.deep_view(), spec_decimal(guild_id as nat)) == Some(
                links_view(links@),
            ),
            None => spec_links(caps.deep_view(), spec_decimal(guild_id as nat)) is None,
        },
{
    let ghost cv = caps.deep_view();
    let guild = decimal(guild_id);
    let mut links: Vec<MessageLink> = Vec::new();
    for i in 0..caps.len()
        invariant
            cv == caps.deep_view(),
            forall|k: int| 0 <= k < caps@.len() ==> #[trigger] caps@[k]@.len() == 3,
            guild@ == spec_decimal(guild_id as nat),
            spec_links(cv.take(i as int), guild@) == Some(links_view(links@)),
    {
        proof {
            assert(cv.take(i + 1).drop_last() =~= cv.take(i as int));
            assert(cv.take(i + 1).last() == cv[i as int]);
            assert(caps@[i as int]@.len() == 3);
        }
        let row = &caps[i];
        let server = match &row[0] {
            Some(s) => s,
            None => {
                proof {
                    lemma_links_none_prefix(cv, guild@, i + 1);
                }
                return None;
            },
        };
        if same_text(server.as_str(), guild.as_str()) {
            let parsed = match (&row[1], &row[2]) {
                (Some(c), Some(m)) => match (parse_u64(c.as_str()), parse_u64(m.as_str())) {
                    (Some(c), Some(m)) => Some(MessageLink { channel_id: c, message_id: m }),
                    _ => None,
                },
                _ => None,
            };
            match parsed {
                Some(link) => {
                    let ghost before = links@;
                    links.push(link);
                    assert(links_view(links@) =~= links_view(before).push(
                        (link.channel_id, link.message_id),
                    ));
                },
                None => {
                    proof {
                        lemma_links_none_prefix(cv, guild@, i + 1);
                    }
                    return None;
                },
            }
        }
    }
    assert(cv.take(caps@.len() as int) =~= cv);
    Some(links)
}

/// The messages of the server `guild_id` that links in `content` point at.
pub fn message_links(patterns: &LinkPatterns, content: &str, guild_id: u64) -> (r: Option<
    Vec<MessageLink>,
>)
    ensures
        match r {
            Some(links) => spec_links(link_captures(content@), spec_decimal(guild_id as nat))
                == Some(links_view(links@)),
            None => spec_links(link_captures(content@), spec_decimal(guild_id as nat)) is None,
        },
{
    let mut groups: Vec<String> = Vec::new();
    groups.push(String::from_str(GUILD_GROUP));
    groups.push(String::from_str(CHANNEL_GROUP));
    groups.push(String::from_str(MESSAGE_GROUP));
    assert(groups.deep_view() =~= seq![GUILD_GROUP@, CHANNEL_GROUP@, MESSAGE_GROUP@]);
    let caps = patterns.message().captures(content, &groups);
    links_from_captures(&caps, guild_id)
}

/// At most `n` first chars of `s`.
pub open spec fn first_chars(s: Seq<char>, n: nat) -> Seq<char> {
    if s.len() <= n {
        s
    } else {
        s.take(n as int)
    }
}

/// The description of a preview: the message text, or, when its UTF-8 form
/// is longer than 100 bytes, its first 100 chars followed by `...`.
pub open spec fn spec_preview_description(content: Seq<char>) -> Seq<char> {
    if encode_utf8(content).len() > 100 {
        first_chars(content, 100) + "..."@
    } else {
        content
    }
}

/// The description of the preview of a message with text `content`.
pub fn preview_description(content: &str) -> (r: String)
    ensures
        r@ == spec_preview_description(content@),
{
    if utf8_longer_than(content, 100) {
        let n = content.unicode_len();
        let end: usize = if n <= 100 {
            n
        } else {
            100
        };
        let mut r = String::from_str(content.substring_char(0, end));
        r.append("...");
        assert(content@.subrange(0, end as int) =~= first_chars(content@, 100));
        r
    } else {
        String::from_str(content)
    }
}

/// The URL of the avatar image `avatar` of the user `user_id`.
pub fn avatar_icon_url(user_id: u64, avatar: &str) -> (r: String)
    ensures
        r@ == "https://cdn.discordapp.com/avatars/"@ + spec_decimal(user_id as nat) + "/"@ + avatar@
            + ".png?size=1024"@,
{
    let mut r = String::from_str("https://cdn.discordapp.com/avatars/");
    let id = decimal(user_id);
    r.append(id.as_str());
    r.append("/");
    r.append(avatar);
    r.append(".png?size=1024");
    r
}

/// The positions of the messages to preview: each id once, at its first
/// occurrence.
pub open spec fn spec_first_occurrences(ids: Seq<u64>) -> Seq<int>
    decreases ids.len(),
{
    if ids.len() == 0 {
        Seq::empty()
    } else {
        let rest = spec_first_occurrences(ids.drop_last());
        if ids.drop_last().contains(ids.last()) {
            rest
        } else {
            rest.push(ids.len() - 1)
        }
    }
}

fn contains_id(ids: &Vec<u64>, id: u64) -> (r: bool)
    ensures
        r == ids@.contains(id),
{
    for i in 0..ids.len()
        invariant
            forall|k: int| 0 <= k < i ==> ids@[k] != id,
    {
        if ids[i] == id {
            return true;
        }
    }
    false
}

/// The positions, in order, of the messages to preview among messages with
/// ids `ids`: a message whose id came earlier is skipped.
pub fn messages_to_preview(ids: &Vec<u64>) -> (r: Vec<usize>)
    ensures
        r@.map_values(|i: usize| i as int) == spec_first_occurrences(ids@),
{
    let mut sent: Vec<u64> = Vec::new();
    let mut r: Vec<usize> = Vec::new();
    for i in 0..ids.len()
        invariant
            r@.map_values(|k: usize| k as int) == spec_first_occurrences(ids@.take(i as int)),
            forall|x: u64| sent@.contains(x) <==> ids@.take(i as int).contains(x),
    {
        assert(ids@.take(i + 1).drop_last() =~= ids@.take(i as int));
        assert(ids@.take(i + 1).last() == ids@[i as int]);
        let id = ids[i];
        if !contains_id(&sent, id) {
            let ghost before = r@;
            r.push(i);
            assert(r@.map_values(|k: usize| k as int) =~= before.map_values(|k: usize| k as int).push(
                i as int,
            ));
        }
        let ghost old_sent = sent@;
        sent.push(id);
        assert forall|x: u64| sent@.contains(x) <==> ids@.take(i + 1).contains(x) by {
            if sent@.contains(x) {
                let k = choose|k: int| 0 <= k < sent@.len() && sent@[k] == x;
                if k < old_sent.len() {
                    assert(old_sent[k] == x);
                    assert(old_sent.contains(x));
                    assert(ids@.take(i as int).contains(x));
                    let j = choose|j: int| 0 <= j < i && #[trigger] ids@.take(i as int)[j] == x;
                    assert(ids@.take(i + 1)[j] == x);
                } else {
                    assert(ids@.take(i + 1)[i as int] == x);
                }
            }
            if ids@.take(i + 1).contains(x) {
                let j = choose|j: int| 0 <= j < i + 1 && #[trigger] ids@.take(i + 1)[j] == x;
                if j < i {
                    assert(ids@.take(i as int)[j] == x);
                    assert(old_sent.contains(x));
                    let k = choose|k: int| 0 <= k < old_sent.len() && old_sent[k] == x;
                    assert(sent@[k] == x);
                } else {
                    assert(sent@[old_sent.len() as int] == x);
                }
            }
        }
    }
    assert(ids@.take(ids@.len() as int) =~= ids@);
    r
}

/// The previewed positions lie in the list and increase.
proof fn lemma_previewed_positions(ids: Seq<u64>)
    ensures
        forall|k: int|
            0 <= k < spec_first_occurrences(ids).len() ==> 0 <= #[trigger] spec_first_occurrences(
                ids,
            )[k] < ids.len(),
        forall|k: int, l: int|
            0 <= k < l < spec_first_occurrences(ids).len() ==> #[trigger] spec_first_occurrences(
                ids,
            )[k] < #[trigger] spec_first_occurrences(ids)[l],
    decreases ids.len(),
{
    if ids.len() > 0 {
        let init = ids.drop_last();
        lemma_previewed_positions(init);
        let rest = spec_first_occurrences(init);
        let r = spec_first_occurrences(ids);
        if init.contains(ids.last()) {
            assert(r == rest);
        } else {
            assert(r == rest.push(ids.len() - 1));
            assert forall|k: int| 0 <= k < r.len() implies 0 <= #[trigger] r[k] < ids.len() by {
                if k < rest.len() {
                    assert(r[k] == rest[k]);
                }
            }
            assert forall|k: int, l: int| 0 <= k < l < r.len() implies #[trigger] r[k] < #[trigger] r[l] by {
                assert(r[k] == rest[k]);
                if l < rest.len() {
                    assert(r[l] == rest[l]);
                }
            }
        }
    }
}

/// Each previewed position holds the first occurrence of its id.
proof fn lemma_previewed_first(ids: Seq<u64>)
    ensures
        forall|k: int|
            0 <= k < spec_first_occurrences(ids).len() ==> !ids.take(
                #[trigger] spec_first_occurrences(ids)[k],
            ).contains(ids[spec_first_occurrences(ids)[k]]),
    decreases ids.len(),
{
    if ids.len() > 0 {
        let init = ids.drop_last();
        lemma_previewed_first(init);
        lemma_previewed_positions(init);
        let rest = spec_first_occurrences(init);
        assert forall|k: int| 0 <= k < rest.len() implies !ids.take(#[trigger] rest[k]).contains(
            ids[rest[k]],
        ) by {
            assert(ids.take(rest[k]) =~= init.take(rest[k]));
            assert(init[rest[k]] == ids[rest[k]]);
        }
        assert(init =~= ids.take(ids.len() - 1));
    }
}

/// The id at position `i` is previewed.
#[verifier::spinoff_prover]
proof fn lemma_previewed_covers(ids: Seq<u64>, i: int)
    requires
        0 <= i < ids.len(),
    ensures
        exists|k: int|
            0 <= k < spec_first_occurrences(ids).len() && ids[#[trigger] spec_first_occurrences(
                ids,
            )[k]] == ids[i],
    decreases ids.len(),
{
    let init = ids.drop_last();
    let rest = spec_first_occurrences(init);
    let r = spec_first_occurrences(ids);
    lemma_previewed_positions(init);
    let target = if i < init.len() {
        i
    } else if init.contains(ids.last()) {
        choose|j: int| 0 <= j < init.len() && #[trigger] init[j] == ids.last()
    } else {
        -1
    };
    if target >= 0 {
        lemma_previewed_covers(init, target);
        let k = choose|k: int| 0 <= k < rest.len() && init[#[trigger] rest[k]] == init[target];
        assert(r[k] == rest[k]);
        assert(init[rest[k]] == ids[rest[k]]);
        assert(ids[r[k]] == ids[i]);
    } else {
        assert(r == rest.push(ids.len() - 1));
        assert(r[r.len() - 1] == i);
    }
}

/// Each message id is previewed once: the previewed positions lie in the
/// list and increase, their ids are distinct, and every id of the list is
/// among them.
pub proof fn law_each_id_previewed_once(ids: Seq<u64>)
    ensures
        forall|k: int|
            0 <= k < spec_first_occurrences(ids).len() ==> 0 <= #[trigger] spec_first_occurrences(
                ids,
            )[k] < ids.len(),
        forall|k: int, l: int|
            0 <= k < l < spec_first_occurrences(ids).len() ==> #[trigger] spec_first_occurrences(
                ids,
            )[k] < #[trigger] spec_first_occurrences(ids)[l] && ids[spec_first_occurrences(
                ids,
            )[k]] != ids[spec_first_occurrences(ids)[l]],
        forall|i: int|
            0 <= i < ids.len() ==> exists|k: int|
                0 <= k < spec_first_occurrences(ids).len() && ids[#[trigger] spec_first_occurrences(
                    ids,
                )[k]] == #[trigger] ids[i],
{
    lemma_previewed_positions(ids);
    lemma_previewed_first(ids);
    assert forall|i: int| 0 <= i < ids.len() implies exists|k: int|
        0 <= k < spec_first_occurrences(ids).len() && ids[#[trigger] spec_first_occurrences(
            ids,
        )[k]] == #[trigger] ids[i] by {
        lemma_previewed_covers(ids, i);
    }
    let r = spec_first_occurrences(ids);
    assert forall|k: int, l: int| 0 <= k < l < r.len() implies #[trigger] r[k] < #[trigger] r[l]
        && ids[r[k]] != ids[r[l]] by {
        assert(ids.take(r[l])[r[k]] == ids[r[k]]);
        assert(!ids.take(r[l]).contains(ids[r[l]]));
    }
}

/// A char takes at least one byte in UTF-8.
proof fn lemma_utf8_at_least_chars(s: Seq<char>)
    ensures
        encode_utf8(s).len() >= s.len(),
    decreases s.len(),
{
    if s.len() > 0 {
        lemma_utf8_at_least_chars(s.drop_first());
    }
}

/// A preview description starts with the beginning of the message text and
/// is at most 103 chars long.
pub proof fn law_preview_description_bounded(content: Seq<char>)
    ensures
        spec_preview_description(content).len() <= 103,
        spec_preview_description(content).take(
            first_chars(content, 100).len() as int,
        ) == first_chars(content, 100),
{
    lemma_utf8_at_least_chars(content);
    reveal_strlit("...");
    if encode_utf8(content).len() > 100 {
        let d = spec_preview_description(content);
        assert(d.take(first_chars(content, 100).len() as int) =~= first_chars(content, 100));
    } else {
        assert(content.take(content.len() as int) =~= content);
    }
}


/// Whether a captured link names the server `guild`.
pub open spec fn of_guild(c: Seq<Option<Seq<char>>>, guild: Seq<char>) -> bool {
    c[0] == Some(guild)
}

/// The channel and message ids that a captured link names.
pub open spec fn link_ids(c: Seq<Option<Seq<char>>>) -> (u64, u64) {
    (spec_parse_u64(c[1]->0)->0, spec_parse_u64(c[2]->0)->0)
}

/// Whether a captured link can be read: it has a server group, and where
/// that is `guild`, channel and message groups that parse as `u64`.
pub open spec fn readable_link(c: Seq<Option<Seq<char>>>, guild: Seq<char>) -> bool {
    &&& c[0] is Some
    &&& of_guild(c, guild) ==> {
        &&& c[1] is Some
        &&& c[2] is Some
        &&& spec_parse_u64(c[1]->0) is Some
        &&& spec_parse_u64(c[2]->0) is Some
    }
}

/// The links are read exactly when every captured link can be read, and
/// then they are one per captured link of the server `guild`, in order,
/// each holding the ids that link names; links to other servers are left
/// out.
pub proof fn law_links_one_per_link_of_guild(caps: Seq<Seq<Option<Seq<char>>>>, guild: Seq<char>)
    ensures
        spec_links(caps, guild) is Some <==> forall|i: int|
            0 <= i < caps.len() ==> #[trigger] readable_link(caps[i], guild),
        spec_links(caps, guild) is Some ==> spec_links(caps, guild)->0 == caps.filter(
            |c: Seq<Option<Seq<char>>>| of_guild(c, guild),
        ).map_values(|c: Seq<Option<Seq<char>>>| link_ids(c)),
    decreases caps.len(),
{
    reveal(Seq::filter);
    let pred = |c: Seq<Option<Seq<char>>>| of_guild(c, guild);
    let f = |c: Seq<Option<Seq<char>>>| link_ids(c);
    if caps.len() == 0 {
        assert(caps.filter(pred).map_values(f) =~= Seq::<(u64, u64)>::empty());
    } else {
        let pre = caps.drop_last();
        law_links_one_per_link_of_guild(pre, guild);
        let c = caps.last();
        assert(c == caps[caps.len() - 1]);
        assert forall|i: int| 0 <= i < pre.len() implies pre[i] == caps[i] by {}
        if spec_links(caps, guild) is Some {
            assert(spec_links(pre, guild) is Some);
            assert forall|i: int| 0 <= i < caps.len() implies #[trigger] readable_link(
                caps[i],
                guild,
            ) by {
                if i < pre.len() {
                    assert(readable_link(pre[i], guild));
                }
            }
            let sub = pre.filter(pred);
            if of_guild(c, guild) {
                assert(caps.filter(pred) == sub.push(c));
                assert(sub.push(c).map_values(f) =~= sub.map_values(f).push(link_ids(c)));
            } else {
                assert(caps.filter(pred) == sub);
            }
        } else {
            if forall|i: int| 0 <= i < caps.len() ==> #[trigger] readable_link(caps[i], guild) {
                assert forall|i: int| 0 <= i < pre.len() implies #[trigger] readable_link(
                    pre[i],
                    guild,
                ) by {
                    assert(readable_link(caps[i], guild));
                }
                assert(readable_link(caps[caps.len() - 1], guild));
                assert(false);
            }
        }
    }
}

} // verus!
