//! Images of tweets embedded in messages, grouped by tweet, and the buttons
//! the bot offers to show them.
use vstd::prelude::*;

use crate::amazon::opt_view;
use crate::patterns::{regex_is_match, LinkPatterns, TWEET_EMBED_URL};
use crate::text::{
    decimal, join, lemma_remove_char_absent, lemma_remove_char_concat, lemma_remove_char_step,
    replace, same_text, spec_decimal, spec_join, spec_replace,
};

verus! {

/// What the bot reads from an embed of a message: its URL and the URL of
/// its image.
pub struct EmbedInfo {
    pub url: Option<String>,
    pub image_url: Option<String>,
}

/// An embed read as by `EmbedInfo`.
pub type EmbedView = (Option<Seq<char>>, Option<Seq<char>>);

impl View for EmbedInfo {
    type V = EmbedView;

    open spec fn view(&self) -> EmbedView {
        (opt_view(self.url), opt_view(self.image_url))
    }
}

/// The images of one tweet.
pub struct TweetImages {
    pub url: String,
    pub images: Vec<String>,
}

/// A tweet URL with the URLs of its images.
pub type GroupView = (Seq<char>, Seq<Seq<char>>);

impl View for TweetImages {
    type V = GroupView;

    open spec fn view(&self) -> GroupView {
        (self.url@, self.images.deep_view())
    }
}

/// The views of a list of groups.
pub open spec fn groups_view(groups: Seq<TweetImages>) -> Seq<GroupView> {
    groups.map_values(|g: TweetImages| g@)
}

/// Whether an embed URL points at a tweet.
pub open spec fn is_tweet_url(url: Option<Seq<char>>) -> bool {
    url matches Some(u) && regex_is_match(TWEET_EMBED_URL@, u)
}

/// Whether the embed shows a tweet: its URL is a tweet URL.
pub fn is_twitter_embed(patterns: &LinkPatterns, embed: &EmbedInfo) -> (r: bool)
    ensures
        r == is_tweet_url(embed@.0),
{
    match &embed.url {
        Some(url) => patterns.tweet_embed().is_match(url.as_str()),
        None => false,
    }
}

/// The position of the group of `url`, searching from the front.
pub open spec fn key_index(groups: Seq<GroupView>, url: Seq<char>) -> Option<int>
    decreases groups.len(),
{
    if groups.len() == 0 {
        None
    } else if groups[0].0 == url {
        Some(0)
    } else {
        match key_index(groups.skip(1), url) {
            Some(k) => Some(k + 1),
            None => None,
        }
    }
}

/// The groups after one more embed, which shows a tweet where `tweet` holds;
/// `None` where an embed of a tweet that already has a group comes without
/// an image.
pub open spec fn add_embed(groups: Seq<GroupView>, embed: EmbedView, tweet: bool) -> Option<
    Seq<GroupView>,
> {
    if !tweet {
        Some(groups)
    } else {
        let url = embed.0->0;
        match key_index(groups, url) {
            None => if embed.1 is Some {
                Some(groups.push((url, seq![embed.1->0])))
            } else {
                Some(groups)
            },
            Some(k) => if embed.1 is Some {
                Some(groups.update(k, (url, groups[k].1.push(embed.1->0))))
            } else {
                None
            },
        }
    }
}

/// The images of the embeds flagged as tweets, grouped by tweet URL in the
/// order the tweets first come with an image; `None` where a later embed of
/// a tweet comes without an image.
pub open spec fn spec_group_images(embeds: Seq<EmbedView>, tweet: Seq<bool>) -> Option<
    Seq<GroupView>,
>
    decreases embeds.len(),
{
    if embeds.len() == 0 {
        Some(Seq::empty())
    } else {
        match spec_group_images(embeds.drop_last(), tweet.drop_last()) {
            None => None,
            Some(g) => add_embed(g, embeds.last(), tweet.last()),
        }
    }
}

/// Which embeds show a tweet.
pub open spec fn tweet_flags(embeds: Seq<EmbedView>) -> Seq<bool> {
    embeds.map_values(|e: EmbedView| is_tweet_url(e.0))
}

/// The images of the tweet embeds, grouped by tweet URL.
pub open spec fn spec_tweet_groups(embeds: Seq<EmbedView>) -> Option<Seq<GroupView>> {
    spec_group_images(embeds, tweet_flags(embeds))
}

/// The views of a list of embeds.
pub open spec fn embeds_view(embeds: Seq<EmbedInfo>) -> Seq<EmbedView> {
    embeds.map_values(|e: EmbedInfo| e@)
}

proof fn lemma_key_index_found(groups: Seq<GroupView>, url: Seq<char>, k: int)
    requires
        0 <= k < groups.len(),
        groups[k].0 == url,
        forall|j: int| 0 <= j < k ==> groups[j].0 != url,
    ensures
        key_index(groups, url) == Some(k),
    decreases k,
{
    if k > 0 {
        lemma_key_index_found(groups.skip(1), url, k - 1);
    }
}

proof fn lemma_key_index_absent(groups: Seq<GroupView>, url: Seq<char>)
    requires
        forall|j: int| 0 <= j < groups.len() ==> groups[j].0 != url,
    ensures
        key_index(groups, url) is None,
    decreases groups.len(),
{
    if groups.len() > 0 {
        lemma_key_index_absent(groups.skip(1), url);
    }
}

/// What `key_index` finds is the group of `url`, and nothing earlier is.
proof fn lemma_key_index_sound(groups: Seq<GroupView>, url: Seq<char>)
    ensures
        key_index(groups, url) matches Some(k) ==> 0 <= k < groups.len() && groups[k].0 == url,
        key_index(groups, url) is None ==> forall|j: int|
            0 <= j < groups.len() ==> groups[j].0 != url,
    decreases groups.len(),
{
    if groups.len() > 0 {
        lemma_key_index_sound(groups.skip(1), url);
        if groups[0].0 != url {
            assert forall|j: int| 0 < j < groups.len() implies groups[j].0 == groups.skip(1)[j
                - 1].0 by {}
        }
    }
}

/// The position of the group of `url` in `groups`, if any.
fn find_group(groups: &Vec<TweetImages>, url: &String) -> (r: Option<usize>)
    ensures
        match r {
            Some(k) => key_index(groups_view(groups@), url@) == Some(k as int),
            None => key_index(groups_view(groups@), url@) is None,
        },
{
    let ghost gv = groups_view(groups@);
    for k in 0..groups.len()
        invariant
            gv == groups_view(groups@),
            forall|j: int| 0 <= j < k ==> gv[j].0 != url@,
    {
        if groups[k].url == *url {
            proof {
                lemma_key_index_found(gv, url@, k as int);
            }
            return Some(k);
        }
    }
    proof {
        lemma_key_index_absent(gv, url@);
    }
    None
}

/// The images of the embeds flagged in `tweet`, grouped by tweet; `None`
/// where a later embed of a tweet comes without an image.
pub fn group_tweet_images(embeds: &Vec<EmbedInfo>, tweet: &Vec<bool>) -> (r: Option<
    Vec<TweetImages>,
>)
    requires
        tweet@.len() == embeds@.len(),
        forall|i: int| 0 <= i < tweet@.len() && #[trigger] tweet@[i] ==> embeds@[i].url is Some,
    ensures
        match r {
            Some(groups) => spec_group_images(embeds_view(embeds@), tweet@) == Some(
                groups_view(groups@),
            ),
            None => spec_group_images(embeds_view(embeds@), tweet@) is None,
        },
{
    let mut groups: Vec<TweetImages> = Vec::new();
    let ghost ev = embeds_view(embeds@);
    for i in 0..embeds.len()
        invariant
            ev == embeds_view(embeds@),
            tweet@.len() == embeds@.len(),
            forall|k: int| 0 <= k < tweet@.len() && #[trigger] tweet@[k] ==> embeds@[k].url is Some,
            spec_group_images(ev.take(i as int), tweet@.take(i as int)) == Some(
                groups_view(groups@),
            ),
    {
        let ghost before = groups_view(groups@);
        proof {
            assert(ev.take(i + 1).drop_last() =~= ev.take(i as int));
            assert(tweet@.take(i + 1).drop_last() =~= tweet@.take(i as int));
            assert(ev.take(i + 1).last() == embeds@[i as int]@);
            assert(tweet@.take(i + 1).last() == tweet@[i as int]);
        }
        let embed = &embeds[i];
        if tweet[i] {
            let url = match &embed.url {
                Some(u) => u,
                None => {
                    assert(false);
                    return None;
                },
            };
            match find_group(&groups, url) {
                None => {
                    match &embed.image_url {
                        Some(image) => {
                            let mut images: Vec<String> = Vec::new();
                            images.push(image.clone());
                            assert(images.deep_view() =~= seq![image@]);
                            groups.push(TweetImages { url: url.clone(), images });
                            assert(groups_view(groups@) =~= before.push((url@, seq![image@])));
                        },
                        None => {},
                    }
                },
                Some(k) => {
                    match &embed.image_url {
                        Some(image) => {
                            proof {
                                lemma_key_index_sound(before, url@);
                            }
                            let ghost old_groups = groups@;
                            let mut group = groups.remove(k);
                            let ghost old_images = group.images.deep_view();
                            group.images.push(image.clone());
                            assert(group.images.deep_view() =~= old_images.push(image@));
                            assert(group@ == (url@, before[k as int].1.push(image@)));
                            groups.insert(k, group);
                            assert(groups@ =~= old_groups.update(k as int, group));
                            assert(groups_view(groups@) =~= before.update(
                                k as int,
                                (url@, before[k as int].1.push(image@)),
                            ));
                        },
                        None => {
                            proof {
                                lemma_groups_none_prefix(ev, tweet@, i + 1);
                            }
                            return None;
                        },
                    }
                },
            }
        }
    }
    assert(ev.take(embeds@.len() as int) =~= ev);
    assert(tweet@.take(embeds@.len() as int) =~= tweet@);
    Some(groups)
}

/// The images of the tweet embeds among `embeds`, grouped by tweet;
/// `None` where the grouping fails: an embed of a tweet that already has a
/// group comes without an image, where taking its image with `unwrap` would
/// panic. An image-less embed of a tweet that has no group yet is skipped.
pub fn get_twitter_urls(patterns: &LinkPatterns, embeds: &Vec<EmbedInfo>) -> (r: Option<
    Vec<TweetImages>,
>)
    ensures
        match r {
            Some(groups) => spec_tweet_groups(embeds_view(embeds@)) == Some(groups_view(groups@)),
            None => spec_tweet_groups(embeds_view(embeds@)) is None,
        },
{
    let mut tweet: Vec<bool> = Vec::new();
    for i in 0..embeds.len()
        invariant
            tweet@.len() == i,
            forall|k: int| 0 <= k < i ==> (#[trigger] tweet@[k]) == is_tweet_url(embeds@[k]@.0),
    {
        tweet.push(is_twitter_embed(patterns, &embeds[i]));
    }
    proof {
        assert(tweet@ =~= tweet_flags(embeds_view(embeds@)));
        assert forall|i: int| 0 <= i < tweet@.len() && #[trigger] tweet@[i] implies embeds@[i].url is Some by {
            assert(is_tweet_url(embeds@[i]@.0));
        }
    }
    group_tweet_images(embeds, &tweet)
}

/// Once a prefix of the embeds fails to group, all of them do.
proof fn lemma_groups_none_prefix(embeds: Seq<EmbedView>, tweet: Seq<bool>, n: int)
    requires
        0 <= n <= embeds.len(),
        tweet.len() == embeds.len(),
        spec_group_images(embeds.take(n), tweet.take(n)) is None,
    ensures
        spec_group_images(embeds, tweet) is None,
    decreases embeds.len(),
{
    if n < embeds.len() {
        assert(embeds.drop_last().take(n) =~= embeds.take(n));
        assert(tweet.drop_last().take(n) =~= tweet.take(n));
        lemma_groups_none_prefix(embeds.drop_last(), tweet.drop_last(), n);
    } else {
        assert(embeds.take(n) =~= embeds);
        assert(tweet.take(n) =~= tweet);
    }
}

/// Groups are keyed by distinct URLs and none is empty.
pub open spec fn well_grouped(groups: Seq<GroupView>) -> bool {
    &&& forall|i: int, j: int|
        0 <= i < j < groups.len() ==> (#[trigger] groups[i]).0 != (#[trigger] groups[j]).0
    &&& forall|i: int| 0 <= i < groups.len() ==> (#[trigger] groups[i]).1.len() > 0
}

/// Grouping the images of tweet embeds gives each tweet one group, keyed by
/// its URL, holding at least one image.
pub proof fn law_tweet_groups_well_formed(embeds: Seq<EmbedView>, tweet: Seq<bool>)
    requires
        tweet.len() == embeds.len(),
    ensures
        spec_group_images(embeds, tweet) matches Some(g) ==> well_grouped(g),
    decreases embeds.len(),
{
    if embeds.len() > 0 {
        law_tweet_groups_well_formed(embeds.drop_last(), tweet.drop_last());
        if let Some(g) = spec_group_images(embeds.drop_last(), tweet.drop_last()) {
            let e = embeds.last();
            if tweet.last() {
                lemma_key_index_sound(g, e.0->0);
                if let Some(k) = key_index(g, e.0->0) {
                    if e.1 is Some {
                        let g2 = g.update(k, (e.0->0, g[k].1.push(e.1->0)));
                        assert forall|i: int, j: int|
                            0 <= i < j < g2.len() implies (#[trigger] g2[i]).0 != (
                            #[trigger] g2[j]).0 by {
                            assert(g2[i].0 == g[i].0);
                            assert(g2[j].0 == g[j].0);
                        }
                        assert forall|i: int| 0 <= i < g2.len() implies (#[trigger] g2[i]).1.len()
                            > 0 by {
                            if i != k {
                                assert(g2[i] == g[i]);
                            }
                        }
                    }
                } else if e.1 is Some {
                    let g2 = g.push((e.0->0, seq![e.1->0]));
                    assert forall|i: int, j: int|
                        0 <= i < j < g2.len() implies (#[trigger] g2[i]).0 != (
                        #[trigger] g2[j]).0 by {
                        if j < g.len() {
                            assert(g2[i] == g[i] && g2[j] == g[j]);
                        } else {
                            assert(g2[i] == g[i]);
                        }
                    }
                    assert forall|i: int| 0 <= i < g2.len() implies (#[trigger] g2[i]).1.len()
                        > 0 by {
                        if i < g.len() {
                            assert(g2[i] == g[i]);
                        }
                    }
                }
            }
        }
    }
}

/// The tweet URL that a button message names: its text without `<` and `>`.
pub open spec fn strip_brackets(content: Seq<char>) -> Seq<char> {
    spec_replace(spec_replace(content, seq!['<'], Seq::empty()), seq!['>'], Seq::empty())
}

/// The image URLs, one per line, of the group named by a button whose
/// message reads `content`; `None` where no group belongs to that tweet.
pub open spec fn spec_images_for_tweet(groups: Seq<GroupView>, content: Seq<char>) -> Option<
    Seq<char>,
> {
    match key_index(groups, strip_brackets(content)) {
        None => None,
        Some(k) => Some(spec_join(groups[k].1, seq!['\n'])),
    }
}

/// The image URLs, one per line, that a button whose message reads
/// `content` shows for the embeds of the message it answers; `None` where
/// the embeds do not group or no group belongs to the named tweet.
pub open spec fn spec_images_for_button(embeds: Seq<EmbedView>, content: Seq<char>) -> Option<
    Seq<char>,
> {
    match spec_tweet_groups(embeds) {
        None => None,
        Some(g) => spec_images_for_tweet(g, content),
    }
}

/// The image URLs, one per line, of the group that the button with message
/// text `button_content` names.
pub fn images_for_tweet(groups: &Vec<TweetImages>, button_content: &str) -> (r: Option<String>)
    ensures
        opt_view(r) == spec_images_for_tweet(groups_view(groups@), button_content@),
{
    let lt = "<";
    let gt = ">";
    let nothing = "";
    let newline = "\n";
    proof {
        reveal_strlit("<");
        reveal_strlit(">");
        reveal_strlit("");
        reveal_strlit("\n");
    }
    assert(lt@ =~= seq!['<']);
    assert(gt@ =~= seq!['>']);
    assert(nothing@ =~= Seq::<char>::empty());
    assert(newline@ =~= seq!['\n']);
    let without_lt = replace(button_content, lt, nothing);
    let tweet_url = replace(without_lt.as_str(), gt, nothing);
    match find_group(groups, &tweet_url) {
        Some(k) => {
            proof {
                lemma_key_index_sound(groups_view(groups@), tweet_url@);
            }
            assert(groups_view(groups@)[k as int].1 == groups@[k as int].images.deep_view());
            Some(join(&groups[k].images, newline))
        },
        None => None,
    }
}

/// The image URLs, one per line, that the button with message text
/// `button_content` shows for `embeds`.
pub fn images_for_button(
    patterns: &LinkPatterns,
    embeds: &Vec<EmbedInfo>,
    button_content: &str,
) -> (r: Option<String>)
    ensures
        opt_view(r) == spec_images_for_button(embeds_view(embeds@), button_content@),
{
    match get_twitter_urls(patterns, embeds) {
        Some(groups) => images_for_tweet(&groups, button_content),
        None => None,
    }
}

/// The reaction the bot leaves once it has offered the image buttons.
pub const MAGNET: &'static str = "\u{1f9f2}";

/// A message offering to show the images of a tweet.
pub struct ButtonMessage {
    pub label: String,
    pub content: String,
}

/// The label and text of the button messages for the groups that hold more
/// than one image, in order.
pub open spec fn spec_buttons(groups: Seq<GroupView>) -> Seq<(Seq<char>, Seq<char>)>
    decreases groups.len(),
{
    if groups.len() == 0 {
        Seq::empty()
    } else {
        let rest = spec_buttons(groups.drop_last());
        let g = groups.last();
        if g.1.len() > 1 {
            rest.push(
                (
                    "Show images ("@ + spec_decimal(g.1.len()) + ")"@,
                    "<"@ + g.0 + ">"@,
                ),
            )
        } else {
            rest
        }
    }
}

/// Whether one of the reactions is the bot's magnet.
pub open spec fn already_marked(reactions: Seq<Option<String>>) -> bool {
    exists|i: int| 0 <= i < reactions.len() && opt_view(#[trigger] reactions[i]) == Some(MAGNET@)
}

/// The button messages to send for a message whose unicode reactions are
/// `reactions` (`None` for other reactions) and whose tweet images are
/// `groups`: none at all (`None`) when the message already bears the
/// magnet, else one per tweet with more than one image.
pub fn plan_twitter_buttons(reactions: &Vec<Option<String>>, groups: &Vec<TweetImages>) -> (r:
    Option<Vec<ButtonMessage>>)
    ensures
        r is None <==> already_marked(reactions@),
        r matches Some(v) ==> v@.map_values(|b: ButtonMessage| (b.label@, b.content@))
            == spec_buttons(groups_view(groups@)),
{
    for i in 0..reactions.len()
        invariant
            forall|k: int| 0 <= k < i ==> opt_view(#[trigger] reactions@[k]) != Some(MAGNET@),
    {
        match &reactions[i] {
            Some(name) => {
                if same_text(name.as_str(), MAGNET) {
                    return None;
                }
            },
            None => {},
        }
    }
    let mut buttons: Vec<ButtonMessage> = Vec::new();
    let ghost gv = groups_view(groups@);
    for j in 0..groups.len()
        invariant
            gv == groups_view(groups@),
            buttons@.map_values(|b: ButtonMessage| (b.label@, b.content@)) == spec_buttons(
                gv.take(j as int),
            ),
    {
        assert(gv.take(j + 1).drop_last() =~= gv.take(j as int));
        assert(gv.take(j + 1).last() == groups@[j as int]@);
        let count = groups[j].images.len();
        if count > 1 {
            let mut label = String::from_str("Show images (");
            let n = decimal(count as u64);
            label.append(n.as_str());
            label.append(")");
            let mut content = String::from_str("<");
            content.append(groups[j].url.as_str());
            content.append(">");
            let ghost before = buttons@;
            buttons.push(ButtonMessage { label, content });
            assert(buttons@.map_values(|b: ButtonMessage| (b.label@, b.content@)) =~= before.map_values(
                |b: ButtonMessage| (b.label@, b.content@),
            ).push((label@, content@)));
        }
    }
    assert(gv.take(groups@.len() as int) =~= gv);
    Some(buttons)
}

/// The button message offered for a group.
pub open spec fn button_of(g: GroupView) -> (Seq<char>, Seq<char>) {
    ("Show images ("@ + spec_decimal(g.1.len()) + ")"@, "<"@ + g.0 + ">"@)
}

/// Each button is the button of a group with more than one image.
proof fn lemma_buttons_from_groups(groups: Seq<GroupView>, j: int)
    requires
        0 <= j < spec_buttons(groups).len(),
    ensures
        exists|k: int|
            0 <= k < groups.len() && (#[trigger] groups[k]).1.len() > 1 && spec_buttons(groups)[j]
                == button_of(groups[k]),
    decreases groups.len(),
{
    let rest = spec_buttons(groups.drop_last());
    if j < rest.len() {
        lemma_buttons_from_groups(groups.drop_last(), j);
        let k = choose|k: int|
            0 <= k < groups.drop_last().len() && (#[trigger] groups.drop_last()[k]).1.len() > 1
                && rest[j] == button_of(groups.drop_last()[k]);
        assert(groups.drop_last()[k] == groups[k]);
        assert(spec_buttons(groups)[j] == rest[j]);
    } else {
        let k = groups.len() - 1;
        assert(groups[k] == groups.last());
    }
}

/// A URL without angle brackets is what its bracketed form names.
proof fn lemma_strip_brackets(url: Seq<char>)
    requires
        !url.contains('<'),
        !url.contains('>'),
    ensures
        strip_brackets("<"@ + url + ">"@) == url,
{
    reveal_strlit("<");
    reveal_strlit(">");
    let lt: Seq<char> = seq!['<'];
    let gt: Seq<char> = seq!['>'];
    assert("<"@ =~= lt);
    assert(">"@ =~= gt);
    let e = Seq::<char>::empty();
    lemma_remove_char_concat(lt, url + gt, '<');
    assert(lt + url + gt =~= lt + (url + gt));
    lemma_remove_char_step(lt, '<');
    assert(lt.skip(1) =~= e);
    assert(spec_replace(e, seq!['<'], e) =~= e);
    lemma_remove_char_concat(url, gt, '<');
    lemma_remove_char_absent(url, '<');
    assert(!gt.contains('<')) by {
        if gt.contains('<') {
            assert(gt[0] == '>');
        }
    }
    lemma_remove_char_absent(gt, '<');
    let once = spec_replace(lt + url + gt, seq!['<'], e);
    assert(once =~= url + gt);
    lemma_remove_char_concat(url, gt, '>');
    lemma_remove_char_absent(url, '>');
    lemma_remove_char_step(gt, '>');
    assert(gt.skip(1) =~= e);
    assert(url + e =~= url);
}

/// The image URLs of the embeds flagged in `tweet` whose URL is `url` and
/// which carry an image, in the order of the embeds.
pub open spec fn images_of_tweet(embeds: Seq<EmbedView>, tweet: Seq<bool>, url: Seq<char>) -> Seq<
    Seq<char>,
>
    decreases embeds.len(),
{
    if embeds.len() == 0 {
        Seq::empty()
    } else {
        let rest = images_of_tweet(embeds.drop_last(), tweet.drop_last(), url);
        let e = embeds.last();
        if tweet.last() && e.0 == Some(url) && e.1 is Some {
            rest.push(e.1->0)
        } else {
            rest
        }
    }
}

/// One step of `images_of_tweet`: the last embed adds its image where it
/// is flagged, has the URL and carries an image.
proof fn lemma_images_of_tweet_step(embeds: Seq<EmbedView>, tweet: Seq<bool>, url: Seq<char>)
    requires
        embeds.len() > 0,
    ensures
        images_of_tweet(embeds, tweet, url) == (if tweet.last() && embeds.last().0 == Some(url)
            && embeds.last().1 is Some {
            images_of_tweet(embeds.drop_last(), tweet.drop_last(), url).push(embeds.last().1->0)
        } else {
            images_of_tweet(embeds.drop_last(), tweet.drop_last(), url)
        }),
{
}

/// Each group holds exactly the images of the embeds of its tweet, in the
/// order of the embeds, and a tweet without a group has no image.
proof fn lemma_groups_hold_tweet_images(embeds: Seq<EmbedView>, tweet: Seq<bool>)
    requires
        tweet.len() == embeds.len(),
        forall|i: int| 0 <= i < tweet.len() && #[trigger] tweet[i] ==> embeds[i].0 is Some,
    ensures
        spec_group_images(embeds, tweet) matches Some(g) ==> {
            &&& forall|k: int|
                0 <= k < g.len() ==> (#[trigger] g[k]).1 == images_of_tweet(embeds, tweet, g[k].0)
            &&& forall|url: Seq<char>|
                key_index(g, url) is None ==> #[trigger] images_of_tweet(embeds, tweet, url)
                    == Seq::<Seq<char>>::empty()
        },
    decreases embeds.len(),
{
    if embeds.len() > 0 {
        let pe = embeds.drop_last();
        let pt = tweet.drop_last();
        assert forall|i: int| 0 <= i < pt.len() && #[trigger] pt[i] implies pe[i].0 is Some by {
            assert(tweet[i]);
        }
        lemma_groups_hold_tweet_images(pe, pt);
        law_tweet_groups_well_formed(pe, pt);
        if let Some(g) = spec_group_images(embeds, tweet) {
            let g0 = spec_group_images(pe, pt)->0;
            let e = embeds.last();
            let u = e.0->0;
            lemma_key_index_sound(g0, u);
            if tweet.last() {
                assert(tweet[embeds.len() - 1]);
                assert(e.0 == Some(u));
            }
            if !tweet.last() || (key_index(g0, u) is None && e.1 is None) {
                assert(g == g0);
                assert forall|k: int| 0 <= k < g.len() implies (#[trigger] g[k]).1
                    == images_of_tweet(embeds, tweet, g[k].0) by {
                    lemma_images_of_tweet_step(embeds, tweet, g[k].0);
                    if tweet.last() {
                        assert(g0[k].0 != u);
                    }
                }
                assert forall|url: Seq<char>| key_index(g, url) is None implies #[trigger]
                    images_of_tweet(embeds, tweet, url) == Seq::<Seq<char>>::empty() by {
                    lemma_images_of_tweet_step(embeds, tweet, url);
                    assert(images_of_tweet(pe, pt, url) == Seq::<Seq<char>>::empty());
                }
            } else if key_index(g0, u) is None {
                let g1 = g0.push((u, seq![e.1->0]));
                assert(g == g1);
                assert forall|k: int| 0 <= k < g.len() implies (#[trigger] g[k]).1
                    == images_of_tweet(embeds, tweet, g[k].0) by {
                    lemma_images_of_tweet_step(embeds, tweet, g[k].0);
                    if k < g0.len() {
                        assert(g[k] == g0[k]);
                        assert(g0[k].0 != u);
                    } else {
                        assert(images_of_tweet(pe, pt, u) == Seq::<Seq<char>>::empty());
                        assert(g[k].1 =~= Seq::<Seq<char>>::empty().push(e.1->0));
                    }
                }
                assert forall|url: Seq<char>| key_index(g, url) is None implies #[trigger]
                    images_of_tweet(embeds, tweet, url) == Seq::<Seq<char>>::empty() by {
                    lemma_images_of_tweet_step(embeds, tweet, url);
                    lemma_key_index_sound(g, url);
                    assert(g[g0.len() as int].0 == u);
                    assert forall|i: int| 0 <= i < g0.len() implies g0[i].0 != url by {
                        assert(g[i] == g0[i]);
                    }
                    lemma_key_index_absent(g0, url);
                    assert(images_of_tweet(pe, pt, url) == Seq::<Seq<char>>::empty());
                }
            } else {
                let k0 = key_index(g0, u)->0;
                assert(e.1 is Some);
                let g1 = g0.update(k0, (u, g0[k0].1.push(e.1->0)));
                assert(g == g1);
                assert forall|k: int| 0 <= k < g.len() implies (#[trigger] g[k]).1
                    == images_of_tweet(embeds, tweet, g[k].0) by {
                    lemma_images_of_tweet_step(embeds, tweet, g[k].0);
                    if k != k0 {
                        assert(g[k] == g0[k]);
                        assert(g0[k].0 != g0[k0].0) by {
                            if k < k0 {
                                assert(g0[k].0 != g0[k0].0);
                            } else {
                                assert(g0[k0].0 != g0[k].0);
                            }
                        }
                    } else {
                        assert(g0[k0].1 == images_of_tweet(pe, pt, u));
                    }
                }
                assert forall|url: Seq<char>| key_index(g, url) is None implies #[trigger]
                    images_of_tweet(embeds, tweet, url) == Seq::<Seq<char>>::empty() by {
                    lemma_images_of_tweet_step(embeds, tweet, url);
                    lemma_key_index_sound(g, url);
                    assert(g[k0].0 == u);
                    assert forall|i: int| 0 <= i < g0.len() implies g0[i].0 != url by {
                        if i != k0 {
                            assert(g[i] == g0[i]);
                        }
                    }
                    lemma_key_index_absent(g0, url);
                    assert(images_of_tweet(pe, pt, url) == Seq::<Seq<char>>::empty());
                }
            }
        }
    }
}

/// The images a button shows are the images its label counts: each button
/// offered for the embeds of a message names a tweet and counts the images
/// of that tweet's embeds, more than one; where the tweet URL holds no
/// angle bracket, answering a press on the button, for the same embeds,
/// gives exactly those image URLs, in the order of the embeds, one per
/// line.
pub proof fn law_button_shows_counted_images(embeds: Seq<EmbedView>, j: int)
    requires
        spec_tweet_groups(embeds) is Some,
        0 <= j < spec_buttons(spec_tweet_groups(embeds)->0).len(),
    ensures
        ({
            let button = spec_buttons(spec_tweet_groups(embeds)->0)[j];
            exists|url: Seq<char>|
                {
                    let images = #[trigger] images_of_tweet(embeds, tweet_flags(embeds), url);
                    &&& images.len() > 1
                    &&& button.0 == "Show images ("@ + spec_decimal(images.len()) + ")"@
                    &&& button.1 == "<"@ + url + ">"@
                    &&& !url.contains('<') && !url.contains('>') ==> spec_images_for_button(
                        embeds,
                        button.1,
                    ) == Some(spec_join(images, seq!['\n']))
                }
        }),
{
    let g = spec_tweet_groups(embeds)->0;
    let flags = tweet_flags(embeds);
    law_tweet_groups_well_formed(embeds, flags);
    assert forall|i: int| 0 <= i < flags.len() && #[trigger] flags[i] implies embeds[i].0 is Some by {
        assert(is_tweet_url(embeds[i].0));
    }
    lemma_groups_hold_tweet_images(embeds, flags);
    lemma_buttons_from_groups(g, j);
    let k = choose|k: int|
        0 <= k < g.len() && (#[trigger] g[k]).1.len() > 1 && spec_buttons(g)[j] == button_of(g[k]);
    assert(g[k].1 == images_of_tweet(embeds, flags, g[k].0));
    if !g[k].0.contains('<') && !g[k].0.contains('>') {
        lemma_strip_brackets(g[k].0);
        assert forall|i: int| 0 <= i < k implies g[i].0 != g[k].0 by {
            assert(g[i].0 != g[k].0);
        }
        lemma_key_index_found(g, g[k].0, k);
    }
    assert(button_of(g[k]) == spec_buttons(g)[j]);
}


/// Whether a group holds more than one image.
pub open spec fn has_several_images(g: GroupView) -> bool {
    g.1.len() > 1
}

/// The buttons are exactly one per group with more than one image, in the
/// order of the groups, each labelled with the number of its images and
/// naming its tweet in angle brackets.
pub proof fn law_buttons_one_per_group_with_several_images(groups: Seq<GroupView>)
    ensures
        spec_buttons(groups) == groups.filter(|g: GroupView| has_several_images(g)).map_values(
            |g: GroupView| button_of(g),
        ),
    decreases groups.len(),
{
    reveal(Seq::filter);
    let pred = |g: GroupView| has_several_images(g);
    let f = |g: GroupView| button_of(g);
    if groups.len() > 0 {
        law_buttons_one_per_group_with_several_images(groups.drop_last());
        let sub = groups.drop_last().filter(pred);
        if has_several_images(groups.last()) {
            assert(groups.filter(pred) == sub.push(groups.last()));
            assert(sub.push(groups.last()).map_values(f) =~= sub.map_values(f).push(
                button_of(groups.last()),
            ));
        } else {
            assert(groups.filter(pred) == sub);
        }
    } else {
        assert(groups.filter(pred).map_values(f) =~= Seq::<(Seq<char>, Seq<char>)>::empty());
    }
}


/// A tweet has an image among the embeds exactly when one of its flagged
/// embeds carries one.
proof fn lemma_images_of_tweet_nonempty(embeds: Seq<EmbedView>, tweet: Seq<bool>, url: Seq<char>)
    requires
        tweet.len() == embeds.len(),
    ensures
        images_of_tweet(embeds, tweet, url).len() > 0 <==> exists|i: int|
            0 <= i < embeds.len() && #[trigger] tweet[i] && embeds[i].0 == Some(url)
                && embeds[i].1 is Some,
    decreases embeds.len(),
{
    if embeds.len() > 0 {
        let pe = embeds.drop_last();
        let pt = tweet.drop_last();
        lemma_images_of_tweet_nonempty(pe, pt, url);
        lemma_images_of_tweet_step(embeds, tweet, url);
        let n = embeds.len() - 1;
        if exists|i: int|
            0 <= i < embeds.len() && #[trigger] tweet[i] && embeds[i].0 == Some(url)
                && embeds[i].1 is Some {
            let i = choose|i: int|
                0 <= i < embeds.len() && #[trigger] tweet[i] && embeds[i].0 == Some(url)
                    && embeds[i].1 is Some;
            if i < n {
                assert(pt[i] && pe[i] == embeds[i]);
            }
        }
        if exists|i: int|
            0 <= i < pe.len() && #[trigger] pt[i] && pe[i].0 == Some(url) && pe[i].1 is Some {
            let i = choose|i: int|
                0 <= i < pe.len() && #[trigger] pt[i] && pe[i].0 == Some(url) && pe[i].1 is Some;
            assert(tweet[i] && embeds[i] == pe[i]);
        }
    }
}

/// Whether an embed of a tweet comes without an image after an embed of the
/// same tweet that carried one.
pub open spec fn late_imageless_embed(embeds: Seq<EmbedView>, tweet: Seq<bool>) -> bool {
    exists|i: int, j: int|
        0 <= i < j < embeds.len() && #[trigger] tweet[i] && #[trigger] tweet[j] && embeds[i].0
            == embeds[j].0 && embeds[i].1 is Some && embeds[j].1 is None
}

proof fn lemma_group_images_fail_iff(embeds: Seq<EmbedView>, tweet: Seq<bool>)
    requires
        tweet.len() == embeds.len(),
        forall|i: int| 0 <= i < tweet.len() && #[trigger] tweet[i] ==> embeds[i].0 is Some,
    ensures
        spec_group_images(embeds, tweet) is None <==> late_imageless_embed(embeds, tweet),
    decreases embeds.len(),
{
    if embeds.len() > 0 {
        let pe = embeds.drop_last();
        let pt = tweet.drop_last();
        let n = embeds.len() - 1;
        assert forall|i: int| 0 <= i < pt.len() && #[trigger] pt[i] implies pe[i].0 is Some by {
            assert(tweet[i]);
        }
        lemma_group_images_fail_iff(pe, pt);
        let e = embeds.last();
        assert(e == embeds[n]);
        // A late image-less embed of the prefix is one of the whole list.
        if late_imageless_embed(pe, pt) {
            let (i, j) = choose|i: int, j: int|
                0 <= i < j < pe.len() && #[trigger] pt[i] && #[trigger] pt[j] && pe[i].0 == pe[j].0
                    && pe[i].1 is Some && pe[j].1 is None;
            assert(tweet[i] && tweet[j] && embeds[i] == pe[i] && embeds[j] == pe[j]);
        }
        if let Some(g0) = spec_group_images(pe, pt) {
            if tweet.last() {
                assert(tweet[n]);
                let u = e.0->0;
                assert(e.0 == Some(u));
                lemma_groups_hold_tweet_images(pe, pt);
                law_tweet_groups_well_formed(pe, pt);
                lemma_key_index_sound(g0, u);
                lemma_images_of_tweet_nonempty(pe, pt, u);
                if late_imageless_embed(embeds, tweet) {
                    let (i, j) = choose|i: int, j: int|
                        0 <= i < j < embeds.len() && #[trigger] tweet[i] && #[trigger] tweet[j]
                            && embeds[i].0 == embeds[j].0 && embeds[i].1 is Some
                            && embeds[j].1 is None;
                    if j < n {
                        assert(pt[i] && pt[j] && pe[i] == embeds[i] && pe[j] == embeds[j]);
                    } else {
                        assert(pt[i] && pe[i] == embeds[i]);
                        assert(images_of_tweet(pe, pt, u).len() > 0);
                        if key_index(g0, u) is None {
                            assert(images_of_tweet(pe, pt, u) == Seq::<Seq<char>>::empty());
                        }
                    }
                }
                if spec_group_images(embeds, tweet) is None {
                    let k = key_index(g0, u)->0;
                    assert(g0[k].1.len() > 0);
                    assert(images_of_tweet(pe, pt, u).len() > 0);
                    let i = choose|i: int|
                        0 <= i < pe.len() && #[trigger] pt[i] && pe[i].0 == Some(u)
                            && pe[i].1 is Some;
                    assert(tweet[i] && embeds[i] == pe[i]);
                    assert(tweet[i] && tweet[n] && embeds[i].0 == embeds[n].0);
                }
            } else {
                if late_imageless_embed(embeds, tweet) {
                    let (i, j) = choose|i: int, j: int|
                        0 <= i < j < embeds.len() && #[trigger] tweet[i] && #[trigger] tweet[j]
                            && embeds[i].0 == embeds[j].0 && embeds[i].1 is Some
                            && embeds[j].1 is None;
                    assert(j < n);
                    assert(pt[i] && pt[j] && pe[i] == embeds[i] && pe[j] == embeds[j]);
                }
            }
        }
    }
}

/// Grouping fails exactly where an embed of a tweet comes without an image
/// after an embed of the same tweet that carried one; embeds that show no
/// tweet never make it fail.
pub proof fn law_tweet_groups_fail_only_on_late_imageless_embed(embeds: Seq<EmbedView>)
    ensures
        spec_tweet_groups(embeds) is None <==> exists|i: int, j: int|
            0 <= i < j < embeds.len() && #[trigger] is_tweet_url(embeds[i].0) && embeds[i].0
                == #[trigger] embeds[j].0 && embeds[i].1 is Some && embeds[j].1 is None,
{
    let flags = tweet_flags(embeds);
    assert forall|i: int| 0 <= i < flags.len() && #[trigger] flags[i] implies embeds[i].0 is Some by {
        assert(is_tweet_url(embeds[i].0));
    }
    lemma_group_images_fail_iff(embeds, flags);
    if late_imageless_embed(embeds, flags) {
        let (i, j) = choose|i: int, j: int|
            0 <= i < j < embeds.len() && #[trigger] flags[i] && #[trigger] flags[j] && embeds[i].0
                == embeds[j].0 && embeds[i].1 is Some && embeds[j].1 is None;
        assert(is_tweet_url(embeds[i].0) && embeds[i].0 == embeds[j].0);
    }
    if exists|i: int, j: int|
        0 <= i < j < embeds.len() && #[trigger] is_tweet_url(embeds[i].0) && embeds[i].0
            == #[trigger] embeds[j].0 && embeds[i].1 is Some && embeds[j].1 is None {
        let (i, j) = choose|i: int, j: int|
            0 <= i < j < embeds.len() && #[trigger] is_tweet_url(embeds[i].0) && embeds[i].0
                == #[trigger] embeds[j].0 && embeds[i].1 is Some && embeds[j].1 is None;
        assert(flags[i] && flags[j]);
    }
}

/// Embeds that show no tweet do not affect the grouping: the groups of the
/// embeds are the groups of their tweet embeds alone.
pub proof fn law_non_tweet_embeds_ignored(embeds: Seq<EmbedView>)
    ensures
        spec_tweet_groups(embeds) == spec_tweet_groups(
            embeds.filter(|e: EmbedView| is_tweet_url(e.0)),
        ),
    decreases embeds.len(),
{
    reveal(Seq::filter);
    let pred = |e: EmbedView| is_tweet_url(e.0);
    let kept = embeds.filter(pred);
    if embeds.len() > 0 {
        let pre = embeds.drop_last();
        law_non_tweet_embeds_ignored(pre);
        let sub = pre.filter(pred);
        assert(tweet_flags(embeds).drop_last() =~= tweet_flags(pre));
        assert(tweet_flags(embeds).last() == is_tweet_url(embeds.last().0));
        if is_tweet_url(embeds.last().0) {
            assert(kept == sub.push(embeds.last()));
            assert(kept.drop_last() =~= sub);
            assert(tweet_flags(kept).drop_last() =~= tweet_flags(sub));
            assert(tweet_flags(kept).last() == is_tweet_url(embeds.last().0));
        } else {
            assert(kept == sub);
        }
    } else {
        assert(kept =~= embeds);
    }
}

} // verus!
