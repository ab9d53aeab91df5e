//! Display helpers for package names, versions and the status line.

use rand::Rng;
use vstd::prelude::*;

use crate::codec::{spec_dec_digits, u64_to_string};
use crate::text::{spec_tokens, split_tokens};

verus! {

/// Cleans a package name for display: its first whitespace token, or the
/// name unchanged when it has no token.
pub fn format_package_name(name: &str) -> (r: String)
    ensures
        r@ == if spec_tokens(name@).len() > 0 {
            spec_tokens(name@)[0]
        } else {
            name@
        },
{
    let toks = split_tokens(name);
    if toks.len() > 0 {
        toks[0].clone()
    } else {
        name.to_owned()
    }
}

/// A version for display: the version itself, or a placeholder when the
/// tool reported none.
pub fn format_version(version: &str) -> (r: String)
    ensures
        r@ == if version@.len() == 0 {
            "unknown"@
        } else {
            version@
        },
{
    if version.is_empty() {
        "unknown".to_owned()
    } else {
        version.to_owned()
    }
}

/// The fixed remarks the status line draws from, three of them carrying
/// the package count.
pub open spec fn spec_comments(count: usize) -> Seq<Seq<char>> {
    seq![
        spec_dec_digits(count as int) + " packages installed. System is happy."@,
        spec_dec_digits(count as int) + " packages installed. Don't forget Ctrl+Z!"@,
        spec_dec_digits(count as int) + " packages. The system is getting fat."@,
        "You installed Vim again... what now?"@,
        "All your packages are belong to us."@,
        "Package addiction is real."@,
    ]
}

/// Relies on rand::Rng::gen_range over `0..n`: returns a value of that
/// range, which is nonempty by the precondition.
#[verifier::external_body]
fn random_index(n: usize) -> (r: usize)
    requires
        n > 0,
    ensures
        r < n,
{
    rand::thread_rng().gen_range(0..n)
}

/// One of the six status-line remarks for the given package count,
/// chosen at random.
pub fn generate_funny_comment(package_count: usize) -> (r: String)
    ensures
        exists|i: int| 0 <= i < 6 && r@ == #[trigger] spec_comments(package_count)[i],
{
    let mut c0 = u64_to_string(package_count as u64);
    c0.append(" packages installed. System is happy.");
    let mut c1 = u64_to_string(package_count as u64);
    c1.append(" packages installed. Don't forget Ctrl+Z!");
    let mut c2 = u64_to_string(package_count as u64);
    c2.append(" packages. The system is getting fat.");
    let c3 = "You installed Vim again... what now?".to_owned();
    let c4 = "All your packages are belong to us.".to_owned();
    let c5 = "Package addiction is real.".to_owned();
    let mut comments: Vec<String> = Vec::new();
    comments.push(c0);
    comments.push(c1);
    comments.push(c2);
    comments.push(c3);
    comments.push(c4);
    comments.push(c5);
    let idx = random_index(comments.len());
    let r = comments[idx].clone();
    proof {
        assert(r@ == spec_comments(package_count)[idx as int]);
    }
    r
}

} // verus!
