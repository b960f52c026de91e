//! The chat command texts the REST command endpoint accepts, built as
//! bytes. Sending them is the surrounding code's business.

use crate::codec::ascii_seq;
use crate::codec::dec_digits;
use crate::codec::u64_to_dec;
use crate::codec::append_ascii;
use vstd::prelude::*;

verus! {

/// Appends a copy of `s` to `out`.
fn append_bytes(out: &mut Vec<u8>, s: &Vec<u8>)
    ensures
        final(out)@ == old(out)@ + s@,
{
    let mut i: usize = 0;
    while i < s.len()
        invariant
            i <= s@.len(),
            out@ == old(out)@ + s@.take(i as int),
        decreases s@.len() - i,
    {
        out.push(s[i]);
        i = i + 1;
        proof {
            assert(out@ =~= old(out)@ + s@.take(i as int));
        }
    }
    proof {
        assert(s@.take(s@.len() as int) =~= s@);
    }
}

/// `mods`: list the channel's moderators.
pub fn mods() -> (r: Vec<u8>)
    ensures
        r@ == ascii_seq("mods"@),
{
    proof {
        reveal_strlit("mods");
    }
    let mut out: Vec<u8> = Vec::new();
    append_ascii(&mut out, "mods");
    proof {
        assert(out@ =~= ascii_seq("mods"@));
    }
    out
}

/// `banned`: list the channel's banned users.
pub fn banned() -> (r: Vec<u8>)
    ensures
        r@ == ascii_seq("banned"@),
{
    proof {
        reveal_strlit("banned");
    }
    let mut out: Vec<u8> = Vec::new();
    append_ascii(&mut out, "banned");
    proof {
        assert(out@ =~= ascii_seq("banned"@));
    }
    out
}

/// `ban`: a zero duration bans permanently, any other for that many
/// seconds.
pub fn ban(username: &Vec<u8>, duration_secs: u64) -> (r: Vec<u8>)
    ensures
        duration_secs == 0 ==> r@ == ascii_seq("ban "@) + username@,
        duration_secs != 0 ==> r@ == ascii_seq("ban "@) + username@ + ascii_seq(" "@) + dec_digits(
            duration_secs as nat,
        ) + ascii_seq("s"@),
{
    proof {
        reveal_strlit("ban ");
        reveal_strlit(" ");
        reveal_strlit("s");
    }
    let mut out: Vec<u8> = Vec::new();
    append_ascii(&mut out, "ban ");
    append_bytes(&mut out, username);
    if duration_secs != 0 {
        append_ascii(&mut out, " ");
        let mut d = u64_to_dec(duration_secs);
        out.append(&mut d);
        append_ascii(&mut out, "s");
    }
    out
}

/// `unban`: lift a user's ban.
pub fn unban(nickname: &Vec<u8>) -> (r: Vec<u8>)
    ensures
        r@ == ascii_seq("unban "@) + nickname@,
{
    proof {
        reveal_strlit("unban ");
    }
    let mut out: Vec<u8> = Vec::new();
    append_ascii(&mut out, "unban ");
    append_bytes(&mut out, nickname);
    out
}

/// `mod`: grant moderator status.
pub fn mod_(nickname: &Vec<u8>) -> (r: Vec<u8>)
    ensures
        r@ == ascii_seq("mod "@) + nickname@,
{
    proof {
        reveal_strlit("mod ");
    }
    let mut out: Vec<u8> = Vec::new();
    append_ascii(&mut out, "mod ");
    append_bytes(&mut out, nickname);
    out
}

/// `unmod`: revoke moderator status.
pub fn unmod(nickname: &Vec<u8>) -> (r: Vec<u8>)
    ensures
        r@ == ascii_seq("unmod "@) + nickname@,
{
    proof {
        reveal_strlit("unmod ");
    }
    let mut out: Vec<u8> = Vec::new();
    append_ascii(&mut out, "unmod ");
    append_bytes(&mut out, nickname);
    out
}

/// `clear`: clear the chat history.
pub fn clear() -> (r: Vec<u8>)
    ensures
        r@ == ascii_seq("clear"@),
{
    proof {
        reveal_strlit("clear");
    }
    let mut out: Vec<u8> = Vec::new();
    append_ascii(&mut out, "clear");
    proof {
        assert(out@ =~= ascii_seq("clear"@));
    }
    out
}

/// `slow`: limit how often users may send messages.
pub fn slow(duration_secs: u64) -> (r: Vec<u8>)
    ensures
        r@ == ascii_seq("slow "@) + dec_digits(duration_secs as nat),
{
    proof {
        reveal_strlit("slow ");
    }
    let mut out: Vec<u8> = Vec::new();
    append_ascii(&mut out, "slow ");
    let mut d = u64_to_dec(duration_secs);
    out.append(&mut d);
    out
}

/// `slowoff`: turn slow mode off.
pub fn slowoff() -> (r: Vec<u8>)
    ensures
        r@ == ascii_seq("slowoff"@),
{
    proof {
        reveal_strlit("slowoff");
    }
    let mut out: Vec<u8> = Vec::new();
    append_ascii(&mut out, "slowoff");
    proof {
        assert(out@ =~= ascii_seq("slowoff"@));
    }
    out
}

/// `followers`: a zero duration restricts by follow duration, any other
/// to followers of that many seconds' standing.
pub fn followers(duration_secs: u64) -> (r: Vec<u8>)
    ensures
        duration_secs == 0 ==> r@ == ascii_seq("followers"@),
        duration_secs != 0 ==> r@ == ascii_seq("followers "@) + dec_digits(duration_secs as nat)
            + ascii_seq("s"@),
{
    proof {
        reveal_strlit("followers");
        reveal_strlit("followers ");
        reveal_strlit("s");
    }
    let mut out: Vec<u8> = Vec::new();
    if duration_secs == 0 {
        append_ascii(&mut out, "followers");
        proof {
            assert(out@ =~= ascii_seq("followers"@));
        }
    } else {
        append_ascii(&mut out, "followers ");
        let mut d = u64_to_dec(duration_secs);
        out.append(&mut d);
        append_ascii(&mut out, "s");
    }
    out
}

/// `followersoff`: turn followers-only mode off.
pub fn followersoff() -> (r: Vec<u8>)
    ensures
        r@ == ascii_seq("followersoff"@),
{
    proof {
        reveal_strlit("followersoff");
    }
    let mut out: Vec<u8> = Vec::new();
    append_ascii(&mut out, "followersoff");
    proof {
        assert(out@ =~= ascii_seq("followersoff"@));
    }
    out
}

/// `host`: host another channel.
pub fn host(username: &Vec<u8>) -> (r: Vec<u8>)
    ensures
        r@ == ascii_seq("host "@) + username@,
{
    proof {
        reveal_strlit("host ");
    }
    let mut out: Vec<u8> = Vec::new();
    append_ascii(&mut out, "host ");
    append_bytes(&mut out, username);
    out
}

/// `unhost`: stop hosting.
pub fn unhost() -> (r: Vec<u8>)
    ensures
        r@ == ascii_seq("unhost"@),
{
    proof {
        reveal_strlit("unhost");
    }
    let mut out: Vec<u8> = Vec::new();
    append_ascii(&mut out, "unhost");
    proof {
        assert(out@ =~= ascii_seq("unhost"@));
    }
    out
}

/// `settitle`: set the channel title.
pub fn settitle(title: &Vec<u8>) -> (r: Vec<u8>)
    ensures
        r@ == ascii_seq("settitle "@) + title@,
{
    proof {
        reveal_strlit("settitle ");
    }
    let mut out: Vec<u8> = Vec::new();
    append_ascii(&mut out, "settitle ");
    append_bytes(&mut out, title);
    out
}

/// `setcategory`: set the channel category.
pub fn setcategory(category_name: &Vec<u8>) -> (r: Vec<u8>)
    ensures
        r@ == ascii_seq("setcategory "@) + category_name@,
{
    proof {
        reveal_strlit("setcategory ");
    }
    let mut out: Vec<u8> = Vec::new();
    append_ascii(&mut out, "setcategory ");
    append_bytes(&mut out, category_name);
    out
}

/// `addrole`: grant a custom role.
pub fn addrole(rolename: &Vec<u8>, username: &Vec<u8>) -> (r: Vec<u8>)
    ensures
        r@ == ascii_seq("addrole "@) + rolename@ + ascii_seq(" "@) + username@,
{
    proof {
        reveal_strlit("addrole ");
        reveal_strlit(" ");
    }
    let mut out: Vec<u8> = Vec::new();
    append_ascii(&mut out, "addrole ");
    append_bytes(&mut out, rolename);
    append_ascii(&mut out, " ");
    append_bytes(&mut out, username);
    out
}

/// `removerole`: revoke a custom role.
pub fn removerole(rolename: &Vec<u8>, username: &Vec<u8>) -> (r: Vec<u8>)
    ensures
        r@ == ascii_seq("removerole "@) + rolename@ + ascii_seq(" "@) + username@,
{
    proof {
        reveal_strlit("removerole ");
        reveal_strlit(" ");
    }
    let mut out: Vec<u8> = Vec::new();
    append_ascii(&mut out, "removerole ");
    append_bytes(&mut out, rolename);
    append_ascii(&mut out, " ");
    append_bytes(&mut out, username);
    out
}

/// `fastclip`: clip the most recent stretch of the stream.
pub fn fastclip() -> (r: Vec<u8>)
    ensures
        r@ == ascii_seq("fastclip"@),
{
    proof {
        reveal_strlit("fastclip");
    }
    let mut out: Vec<u8> = Vec::new();
    append_ascii(&mut out, "fastclip");
    proof {
        assert(out@ =~= ascii_seq("fastclip"@));
    }
    out
}

} // verus!
