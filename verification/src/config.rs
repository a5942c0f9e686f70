//! Blog configuration: plain values that the surrounding application
//! reads at startup and hands to the engine.

use vstd::prelude::*;

verus! {

/// The contact listed in the blog's feed.
pub struct Webmaster {
    pub email: String,
    pub name: String,
}

/// The blog's configuration.
pub struct Config {
    pub title: String,
    pub url: String,
    pub description: String,
    pub webmaster: Webmaster,
    pub taglines: Vec<String>,
    pub preview_size: usize,
    pub page_size: u64,
    pub rss_size: u64,
}

/// Relies on `rand::thread_rng` and `rand::Rng::gen_range`: returns a
/// value drawn from `0..n`, which must be nonempty (`gen_range` panics on
/// an empty range).  Nothing is assumed about which value comes back.
#[verifier::external_body]
fn random_below(n: usize) -> (r: usize)
    requires
        1 <= n,
    ensures
        r < n,
{
    rand::Rng::gen_range(&mut rand::thread_rng(), 0..n)
}

impl Config {
    /// One of the configured taglines, chosen at random; nothing when none
    /// are configured.
    pub fn tagline(&self) -> (r: Option<&String>)
        ensures
            match r {
                Option::Some(s) => exists|i: int|
                    0 <= i < self.taglines@.len() && *s == self.taglines@[i],
                Option::None => self.taglines@.len() == 0,
            },
    {
        if self.taglines.len() == 0 {
            return Option::None;
        }
        let i = random_below(self.taglines.len());
        let s = &self.taglines[i];
        proof {
            assert(0 <= i < self.taglines@.len() && *s == self.taglines@[i as int]);
        }
        Option::Some(s)
    }
}

} // verus!
