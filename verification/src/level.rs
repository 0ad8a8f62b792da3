//! Which level to play, and the names under which uploaded levels are
//! stored in the in-memory `user://` asset source.

use vstd::prelude::*;
use bevy::asset::io::memory::Dir;

verus! {

/// bevy_asset's in-memory directory of assets (shared: clones see the same
/// contents).
#[verifier::external_type_specification]
#[verifier::external_body]
pub struct ExDir(Dir);

/// In-memory directory behind the `user://` asset source.
pub struct UserLevelDir(pub Dir);

/// Whether `path` ends with the LDtk file extension.
pub open spec fn ends_with_ldtk(path: Seq<char>) -> bool {
    path.len() >= 5 && path.subrange(path.len() - 5, path.len() as int) == ".ldtk"@
}

/// Stores `bytes` as the asset at `path` in `dir`, through bevy_asset's
/// `Dir::insert_asset` (which creates the parent directories and replaces an
/// asset already stored there). It panics on a path without a file name, so
/// the path must end in a file name: one ending in `.ldtk` does. The
/// directory is shared behind a lock, so no clause speaks of its contents:
/// that the bytes are stored is not stated.
#[verifier::external_body]
fn insert_asset(dir: &Dir, path: &str, bytes: Vec<u8>)
    requires
        ends_with_ldtk(path@),
{
    dir.insert_asset(std::path::Path::new(path), bytes);
}

/// Level loaded when nothing else is asked for.
pub const DEFAULT_LEVEL: &'static str = "levels/example_world.ldtk";

/// Name of the in-memory asset source that holds uploaded levels.
pub const USER_SOURCE: &'static str = "user";

/// The character of the decimal digit `d`.
pub open spec fn digit_char(d: nat) -> char {
    (48 + d) as char
}

/// The decimal numeral of `n`, without leading zeros.
pub open spec fn decimal(n: nat) -> Seq<char>
    decreases n,
{
    if n < 10 {
        seq![digit_char(n)]
    } else {
        decimal(n / 10).push(digit_char(n % 10))
    }
}

/// The asset path (inside the `user://` source) of the `n`-th upload.
pub open spec fn upload_path_spec(n: nat) -> Seq<char> {
    "levels/upload-"@ + decimal(n) + ".ldtk"@
}

/// The full asset path, source included, of the `n`-th upload.
pub open spec fn upload_source_spec(n: nat) -> Seq<char> {
    USER_SOURCE@ + "://"@ + upload_path_spec(n)
}

/// Asset path of the LDtk project to play (e.g. `levels/first-steps.ldtk`
/// or `user://levels/upload-1.ldtk`). Changing it reloads the world.
#[derive(Clone, Debug)]
pub struct LevelSource(pub String);

impl Default for LevelSource {
    fn default() -> (r: LevelSource)
        ensures
            r.0@ == DEFAULT_LEVEL@,
    {
        LevelSource(DEFAULT_LEVEL.to_owned())
    }
}

/// The one-character string of the digit `d`.
fn digit_str(d: u32) -> (s: &'static str)
    requires
        d < 10,
    ensures
        s@ == seq![digit_char(d as nat)],
{
    proof {
        reveal_strlit("0");
        reveal_strlit("1");
        reveal_strlit("2");
        reveal_strlit("3");
        reveal_strlit("4");
        reveal_strlit("5");
        reveal_strlit("6");
        reveal_strlit("7");
        reveal_strlit("8");
        reveal_strlit("9");
    }
    if d == 0 {
        "0"
    } else if d == 1 {
        "1"
    } else if d == 2 {
        "2"
    } else if d == 3 {
        "3"
    } else if d == 4 {
        "4"
    } else if d == 5 {
        "5"
    } else if d == 6 {
        "6"
    } else if d == 7 {
        "7"
    } else if d == 8 {
        "8"
    } else {
        "9"
    }
}

/// Append the decimal numeral of `n` to `s`.
fn push_decimal(s: &mut String, n: u32)
    ensures
        final(s)@ == old(s)@ + decimal(n as nat),
    decreases n,
{
    if n >= 10 {
        push_decimal(s, n / 10);
    }
    s.append(digit_str(n % 10));
    proof {
        assert(old(s)@ + decimal(n as nat) =~= (if n >= 10 {
            old(s)@ + decimal((n / 10) as nat)
        } else {
            old(s)@
        }) + seq![digit_char((n % 10) as nat)]);
    }
}

/// The asset path of the `n`-th upload: `levels/upload-<n>.ldtk`.
pub fn upload_path(n: u32) -> (path: String)
    ensures
        path@ == upload_path_spec(n as nat),
{
    let mut path = String::new();
    path.append("levels/upload-");
    push_decimal(&mut path, n);
    path.append(".ldtk");
    proof {
        assert(path@ =~= upload_path_spec(n as nat));
    }
    path
}

/// Make `bytes` (an `.ldtk` file) the current level: count one more upload,
/// store the bytes in `dir` under a fresh path (so the asset server never
/// hands back a previously loaded project) and point `source` at it in the
/// `user://` source.
pub fn load_level_bytes(
    dir: &UserLevelDir,
    source: &mut LevelSource,
    upload_counter: &mut u32,
    bytes: Vec<u8>,
)
    requires
        *old(upload_counter) < u32::MAX,
    ensures
        *final(upload_counter) == *old(upload_counter) + 1,
        final(source).0@ == upload_source_spec(*final(upload_counter) as nat),
{
    *upload_counter = *upload_counter + 1;
    let path = upload_path(*upload_counter);
    proof {
        lemma_upload_path_ends_with_ldtk(*upload_counter as nat);
    }
    insert_asset(&dir.0, path.as_str(), bytes);
    let mut full = USER_SOURCE.to_owned();
    full.append("://");
    full.append(path.as_str());
    source.0 = full;
    proof {
        assert(source.0@ =~= upload_source_spec(*upload_counter as nat));
    }
}

/// Every upload path ends with the LDtk extension.
pub proof fn lemma_upload_path_ends_with_ldtk(n: nat)
    ensures
        ends_with_ldtk(upload_path_spec(n)),
{
    reveal_strlit(".ldtk");
    let p = upload_path_spec(n);
    assert(p.subrange(p.len() - 5, p.len() as int) =~= ".ldtk"@);
}

/// The level asked for by the page's query string: the `level` parameter,
/// where it is present and not empty.
pub fn level_from_query(param: Option<String>) -> (level: Option<String>)
    ensures
        level == (match param {
            Some(s) => if s@.len() > 0 {
                Some(s)
            } else {
                None
            },
            None => None,
        }),
{
    match param {
        Some(s) => if s.as_str().is_empty() {
            None
        } else {
            Some(s)
        },
        None => None,
    }
}


/// A numeral has at least one digit, and at least two from 10 on.
proof fn lemma_decimal_len(n: nat)
    ensures
        decimal(n).len() >= 1,
        n >= 10 ==> decimal(n).len() >= 2,
    decreases n,
{
    if n >= 10 {
        lemma_decimal_len(n / 10);
    }
}

/// Distinct numbers have distinct numerals.
pub proof fn lemma_decimal_injective(n: nat, m: nat)
    requires
        decimal(n) == decimal(m),
    ensures
        n == m,
    decreases n,
{
    lemma_decimal_len(n);
    lemma_decimal_len(m);
    if n < 10 && m < 10 {
        assert(decimal(n)[0] == digit_char(n));
        assert(decimal(m)[0] == digit_char(m));
    } else if n >= 10 && m >= 10 {
        let dn = decimal(n);
        let dm = decimal(m);
        assert(dn.last() == digit_char(n % 10));
        assert(dm.last() == digit_char(m % 10));
        assert(dn.drop_last() =~= decimal(n / 10));
        assert(dm.drop_last() =~= decimal(m / 10));
        lemma_decimal_injective(n / 10, m / 10);
    }
}

/// Equal sequences with the same prefix and suffix have the same middle.
proof fn lemma_same_frame(p: Seq<char>, a: Seq<char>, b: Seq<char>, q: Seq<char>)
    requires
        p + a + q == p + b + q,
    ensures
        a == b,
{
    let x = p + a + q;
    let y = p + b + q;
    assert(x.len() == y.len());
    assert((p + a).len() == p.len() + a.len());
    assert((p + b).len() == p.len() + b.len());
    assert(x.len() == (p + a).len() + q.len());
    assert(y.len() == (p + b).len() + q.len());
    assert(a.len() == b.len());
    assert(x.subrange(p.len() as int, (p.len() + a.len()) as int) == y.subrange(
        p.len() as int,
        (p.len() + b.len()) as int,
    ));
    assert(x.subrange(p.len() as int, (p.len() + a.len()) as int) =~= a);
    assert(y.subrange(p.len() as int, (p.len() + b.len()) as int) =~= b);
}

/// Every upload gets its own path: distinct upload numbers never share an
/// asset path, inside the `user://` source or with it.
pub proof fn lemma_upload_paths_fresh(n: nat, m: nat)
    requires
        n != m,
    ensures
        upload_path_spec(n) != upload_path_spec(m),
        upload_source_spec(n) != upload_source_spec(m),
{
    if upload_path_spec(n) == upload_path_spec(m) {
        lemma_same_frame("levels/upload-"@, decimal(n), decimal(m), ".ldtk"@);
        lemma_decimal_injective(n, m);
    }
    if upload_source_spec(n) == upload_source_spec(m) {
        let p = USER_SOURCE@ + "://"@;
        assert(upload_source_spec(n) =~= p + upload_path_spec(n) + Seq::<char>::empty());
        assert(upload_source_spec(m) =~= p + upload_path_spec(m) + Seq::<char>::empty());
        lemma_same_frame(p, upload_path_spec(n), upload_path_spec(m), Seq::<char>::empty());
        lemma_same_frame("levels/upload-"@, decimal(n), decimal(m), ".ldtk"@);
        lemma_decimal_injective(n, m);
    }
}

} // verus!
