use vstd::prelude::*;

verus! {

/// One tweet, as the archive records it.
#[derive(Debug)]
pub struct Tweet {
    pub id_str: String,
    pub favorite_count: String,
    pub full_text: String,
    pub in_reply_to_status_id: Option<String>,
    pub retweeted: bool,
    pub in_reply_to_screen_name: Option<String>,
    pub retweet_count: String,
    pub created_at: String,
}

/// The archive wraps each tweet in a one-field object.
#[derive(Debug)]
pub struct TweetWrapper {
    pub tweet: Tweet,
}

/// A conversation thread: the root tweet's id and the tweets of the
/// conversation, in reply order.
#[derive(Debug)]
pub struct Thread {
    pub id: String,
    pub tweets: Vec<Tweet>,
}

fn clone_opt_string(s: &Option<String>) -> (r: Option<String>)
    ensures
        r == *s,
{
    match s {
        Option::Some(v) => Option::Some(v.clone()),
        Option::None => Option::None,
    }
}

impl Clone for Tweet {
    /// An exact copy, field for field.
    fn clone(&self) -> (r: Tweet)
        ensures
            r == *self,
    {
        Tweet {
            id_str: self.id_str.clone(),
            favorite_count: self.favorite_count.clone(),
            full_text: self.full_text.clone(),
            in_reply_to_status_id: clone_opt_string(&self.in_reply_to_status_id),
            retweeted: self.retweeted,
            in_reply_to_screen_name: clone_opt_string(&self.in_reply_to_screen_name),
            retweet_count: self.retweet_count.clone(),
            created_at: self.created_at.clone(),
        }
    }
}

/// Whether a tweet belongs in the user's own threads: not a retweet, and
/// either not a reply at all or a reply to the user's own screen name.
pub open spec fn spec_keep_tweet(t: Tweet, screen_name: Seq<char>) -> bool {
    &&& !t.retweeted
    &&& match t.in_reply_to_screen_name {
        Some(n) => n@ == screen_name,
        None => true,
    }
}

/// The tweets of a sequence that belong in the user's own threads, in
/// their original order.
pub open spec fn kept_tweets(tweets: Seq<Tweet>, screen_name: Seq<char>) -> Seq<Tweet> {
    tweets.filter(|t: Tweet| spec_keep_tweet(t, screen_name))
}

/// Decides whether one tweet belongs in the user's own threads.
pub fn keep_tweet(t: &Tweet, screen_name: &String) -> (r: bool)
    ensures
        r == spec_keep_tweet(*t, screen_name@),
{
    if t.retweeted {
        return false;
    }
    match &t.in_reply_to_screen_name {
        Option::Some(n) => n.eq(screen_name),
        Option::None => true,
    }
}

/// Keeps exactly the tweets that belong in the user's own threads,
/// preserving their order.
pub fn filter_tweets(tweets: &Vec<Tweet>, screen_name: &String) -> (r: Vec<Tweet>)
    ensures
        r@ == kept_tweets(tweets@, screen_name@),
{
    let mut kept: Vec<Tweet> = Vec::new();
    let mut i: usize = 0;
    proof {
        reveal(Seq::filter);
        assert(tweets@.take(0) =~= Seq::<Tweet>::empty());
        assert(kept_tweets(Seq::<Tweet>::empty(), screen_name@) =~= Seq::<Tweet>::empty());
    }
    while i < tweets.len()
        invariant
            i <= tweets@.len(),
            kept@ == kept_tweets(tweets@.take(i as int), screen_name@),
        decreases tweets@.len() - i,
    {
        let t = &tweets[i];
        proof {
            reveal(Seq::filter);
            let pre = tweets@.take(i as int);
            let cur = tweets@.take(i as int + 1);
            assert(cur.drop_last() =~= pre);
            assert(cur.last() == tweets@[i as int]);
            assert(kept_tweets(cur, screen_name@) == if spec_keep_tweet(
                tweets@[i as int],
                screen_name@,
            ) {
                kept_tweets(pre, screen_name@).push(tweets@[i as int])
            } else {
                kept_tweets(pre, screen_name@)
            });
        }
        if keep_tweet(t, screen_name) {
            kept.push(t.clone());
        }
        i = i + 1;
    }
    proof {
        assert(tweets@.take(tweets@.len() as int) =~= tweets@);
    }
    kept
}

/// What `str::trim` leaves: the line without its leading and trailing
/// whitespace, a function of the characters alone.
pub uninterp spec fn trim_of(s: Seq<char>) -> Seq<char>;

/// Relies on `str::trim`: it removes leading and trailing whitespace and
/// nothing else, depending on the input characters alone.
#[verifier::external_body]
fn trim_line(s: &str) -> (r: String)
    ensures
        r@ == trim_of(s@),
{
    s.trim().to_owned()
}

/// The input-file path the user typed at the prompt, normalized.
pub fn get_input_file(raw_line: &str) -> (r: String)
    ensures
        r@ == trim_of(raw_line@),
{
    trim_line(raw_line)
}

/// The screen name the user typed at the prompt, normalized.
pub fn get_screen_name(raw_line: &str) -> (r: String)
    ensures
        r@ == trim_of(raw_line@),
{
    trim_line(raw_line)
}

} // verus!
