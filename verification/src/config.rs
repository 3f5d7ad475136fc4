//! Resolution of the two store-file paths under the user's home directory.
//! Only the home-directory lookup itself comes from the outside; everything
//! built on top of it is exact, verified path arithmetic.

use vstd::prelude::*;
use crate::chars::copy_chars;
use crate::chars::append_chars;
use crate::paths::join_spec;
use crate::paths::join_path;

verus! {

/// The favourites store, relative to the home directory.
pub open spec fn conf_rel() -> Seq<char> {
    seq![
        '.',
        'c',
        'o',
        'n',
        'f',
        'i',
        'g',
        '/',
        'c',
        'r',
        'a',
        'b',
        'w',
        'a',
        'l',
        'k',
        'e',
        'r',
        '/',
        'f',
        'a',
        'v',
        '.',
        't',
        'x',
        't',
    ]
}

/// The history store, relative to the home directory.
pub open spec fn state_rel() -> Seq<char> {
    seq![
        '.',
        'c',
        'o',
        'n',
        'f',
        'i',
        'g',
        '/',
        'c',
        'r',
        'a',
        'b',
        'w',
        'a',
        'l',
        'k',
        'e',
        'r',
        '/',
        's',
        't',
        'a',
        't',
        'e',
        '.',
        't',
        'x',
        't',
    ]
}

/// The fallback home directory built from a user name.
pub open spec fn home_prefix() -> Seq<char> {
    seq!['/', 'h', 'o', 'm', 'e', '/']
}

/// Relies on dirs_next::home_dir: the platform's home directory for the
/// current user, if the platform reports one.  The result depends on the
/// environment, so nothing is promised of it.
#[verifier::external_body]
fn os_home_dir() -> Option<Vec<char>> {
    match dirs_next::home_dir() {
        Some(p) => Some(p.to_string_lossy().chars().collect()),
        None => None,
    }
}

/// Relies on whoami::username: the current user's login name.  The result
/// depends on the environment, so nothing is promised of it.
#[verifier::external_body]
fn os_username() -> Vec<char> {
    whoami::username().chars().collect()
}

/// The home directory assumed for `user` when the platform reports none.
pub fn home_fallback(user: &Vec<char>) -> (r: Vec<char>)
    ensures
        r@ == home_prefix() + user@,
{
    let mut r: Vec<char> = Vec::new();
    r.push('/');
    r.push('h');
    r.push('o');
    r.push('m');
    r.push('e');
    r.push('/');
    proof {
        assert(r@ =~= home_prefix());
    }
    append_chars(&mut r, user);
    r
}

/// The current user's home directory: what the platform reports, or the
/// fallback built from the user name.  The value depends on the environment;
/// the callers state their results relative to whatever it is.
pub fn get_home_dir() -> Vec<char> {
    match os_home_dir() {
        Some(h) => h,
        None => {
            let user = os_username();
            home_fallback(&user)
        },
    }
}

fn conf_rel_path() -> (r: Vec<char>)
    ensures
        r@ == conf_rel(),
{
    let mut r: Vec<char> = Vec::new();
    r.push('.');
    r.push('c');
    r.push('o');
    r.push('n');
    r.push('f');
    r.push('i');
    r.push('g');
    r.push('/');
    r.push('c');
    r.push('r');
    r.push('a');
    r.push('b');
    r.push('w');
    r.push('a');
    r.push('l');
    r.push('k');
    r.push('e');
    r.push('r');
    r.push('/');
    proof {
        assert(r@ =~= conf_rel().take(19));
    }
    r.push('f');
    r.push('a');
    r.push('v');
    r.push('.');
    r.push('t');
    r.push('x');
    r.push('t');
    proof {
        assert(r@ =~= conf_rel());
    }
    r
}

fn state_rel_path() -> (r: Vec<char>)
    ensures
        r@ == state_rel(),
{
    let mut r: Vec<char> = Vec::new();
    r.push('.');
    r.push('c');
    r.push('o');
    r.push('n');
    r.push('f');
    r.push('i');
    r.push('g');
    r.push('/');
    r.push('c');
    r.push('r');
    r.push('a');
    r.push('b');
    r.push('w');
    r.push('a');
    r.push('l');
    r.push('k');
    r.push('e');
    r.push('r');
    r.push('/');
    proof {
        assert(r@ =~= state_rel().take(19));
    }
    r.push('s');
    r.push('t');
    r.push('a');
    r.push('t');
    r.push('e');
    r.push('.');
    r.push('t');
    r.push('x');
    r.push('t');
    proof {
        assert(r@ =~= state_rel());
    }
    r
}

/// The path of the favourites store under the given home directory.
pub fn get_conf_dir(home: &Vec<char>) -> (r: Vec<char>)
    ensures
        r@ == join_spec(home@, conf_rel()),
{
    let rel = conf_rel_path();
    join_path(home, &rel)
}

/// The path of the history store under the given home directory.
pub fn get_state_dir(home: &Vec<char>) -> (r: Vec<char>)
    ensures
        r@ == join_spec(home@, state_rel()),
{
    let rel = state_rel_path();
    join_path(home, &rel)
}

} // verus!
