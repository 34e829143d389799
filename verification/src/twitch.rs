use vstd::prelude::*;
use vstd::string::StrSliceExecFns;
use hex::FromHex;
use crate::strutil::decimal_digits;
use crate::strutil::append_decimal;

verus! {

/// A decoded chat event: either a chat line to display, or a request to
/// remove lines from the display.
pub enum TwitchCommand {
    /// Remove every line of `user`, or all lines when absent.
    ClearChat { user: Option<String> },
    /// Remove the single line with the given message id.
    ClearMsg { id: String },
    /// A chat line to display.
    Message { id: String, username: String, message: String, color: (u8, u8, u8) },
}

/// What the decoder reads of one inbound chat message: the protocol-level
/// sender nickname, if any, and the metadata tags as key/optional-value
/// pairs, in wire order.
pub struct WireMessage {
    pub source_nickname: Option<String>,
    pub tags: Vec<(String, Option<String>)>,
}

pub open spec fn is_hex_digit(c: char) -> bool {
    ('0' as u32 <= c as u32 && c as u32 <= '9' as u32) || ('a' as u32 <= c as u32 && c as u32
        <= 'f' as u32) || ('A' as u32 <= c as u32 && c as u32 <= 'F' as u32)
}

pub open spec fn hex_digit_val(c: char) -> int {
    if '0' as u32 <= c as u32 && c as u32 <= '9' as u32 {
        c as u32 - '0' as u32
    } else if 'a' as u32 <= c as u32 && c as u32 <= 'f' as u32 {
        c as u32 - 'a' as u32 + 10
    } else if 'A' as u32 <= c as u32 && c as u32 <= 'F' as u32 {
        c as u32 - 'A' as u32 + 10
    } else {
        0
    }
}

/// The bytes a string of hex digits denotes, one byte per digit pair, high
/// digit first.
pub open spec fn hex_bytes(s: Seq<char>) -> Seq<u8>
    decreases s.len(),
{
    if s.len() < 2 {
        Seq::empty()
    } else {
        seq![(hex_digit_val(s[0]) * 16 + hex_digit_val(s[1])) as u8] + hex_bytes(s.skip(2))
    }
}

/// Relies on `hex::FromHex` for `Vec<u8>`: decoding succeeds exactly on an
/// even number of hex digits (either case accepted) and yields one byte per
/// digit pair, high digit first; an odd length or any other character is an
/// error.
#[verifier::external_body]
fn decode_hex(s: &str) -> (r: Option<Vec<u8>>)
    ensures
        r is Some <==> (s@.len() % 2 == 0 && forall|i: int|
            0 <= i < s@.len() ==> is_hex_digit(s@[i])),
        r matches Some(v) ==> v@ == hex_bytes(s@),
{
    match Vec::<u8>::from_hex(s) {
        Ok(v) => Some(v),
        Err(_) => None,
    }
}

/// A well-formed color field: `#` followed by exactly six hex digits.
pub open spec fn valid_color(v: Seq<char>) -> bool {
    v.len() == 7 && v[0] == '#' && (forall|i: int| 1 <= i < 7 ==> is_hex_digit(v[i]))
}

/// The RGB triple a well-formed color field denotes.
pub open spec fn color_of(v: Seq<char>) -> (u8, u8, u8) {
    (
        (hex_digit_val(v[1]) * 16 + hex_digit_val(v[2])) as u8,
        (hex_digit_val(v[3]) * 16 + hex_digit_val(v[4])) as u8,
        (hex_digit_val(v[5]) * 16 + hex_digit_val(v[6])) as u8,
    )
}

proof fn lemma_hex_bytes_6(s: Seq<char>)
    requires
        s.len() == 6,
    ensures
        hex_bytes(s).len() == 3,
        hex_bytes(s)[0] == (hex_digit_val(s[0]) * 16 + hex_digit_val(s[1])) as u8,
        hex_bytes(s)[1] == (hex_digit_val(s[2]) * 16 + hex_digit_val(s[3])) as u8,
        hex_bytes(s)[2] == (hex_digit_val(s[4]) * 16 + hex_digit_val(s[5])) as u8,
{
    let s2 = s.skip(2);
    let s4 = s2.skip(2);
    let s6 = s4.skip(2);
    assert(s2[0] == s[2] && s2[1] == s[3]);
    assert(s4[0] == s[4] && s4[1] == s[5]);
    assert(s4 =~= s.skip(4));
    assert(s6.len() == 0);
    assert(hex_bytes(s6) =~= Seq::<u8>::empty());
    assert(hex_bytes(s4) =~= seq![(hex_digit_val(s4[0]) * 16 + hex_digit_val(s4[1])) as u8]);
    assert(hex_bytes(s2) =~= seq![(hex_digit_val(s2[0]) * 16 + hex_digit_val(s2[1])) as u8]
        + hex_bytes(s4));
    assert(hex_bytes(s) =~= seq![(hex_digit_val(s[0]) * 16 + hex_digit_val(s[1])) as u8]
        + hex_bytes(s2));
}

/// Decodes a `#RRGGBB` color field. An empty field means "no color given"
/// and yields white; anything else that is not `#` plus six hex digits is a
/// decode error.
pub fn parse_color(v: &str) -> (r: Option<(u8, u8, u8)>)
    ensures
        v@.len() == 0 ==> r == Some((255u8, 255u8, 255u8)),
        v@.len() > 0 ==> (r is Some <==> valid_color(v@)),
        v@.len() > 0 && valid_color(v@) ==> r == Some(color_of(v@)),
{
    let n = v.unicode_len();
    if n == 0 {
        return Some((255, 255, 255));
    }
    if n != 7 {
        return None;
    }
    if v.get_char(0) != '#' {
        return None;
    }
    let hexpart = v.substring_char(1, 7);
    proof {
        assert(hexpart@.len() == 6);
        assert(forall|i: int| 0 <= i < 6 ==> hexpart@[i] == v@[i + 1]);
    }
    match decode_hex(hexpart) {
        Some(bytes) => {
            proof {
                assert forall|i: int| 1 <= i < 7 implies is_hex_digit(v@[i]) by {
                    assert(hexpart@[i - 1] == v@[i]);
                    assert(is_hex_digit(hexpart@[i - 1]));
                }
                assert(valid_color(v@));
                lemma_hex_bytes_6(hexpart@);
                assert(bytes@.len() == 3);
            }
            let c = (bytes[0], bytes[1], bytes[2]);
            proof {
                assert(c == color_of(v@));
            }
            Some(c)
        },
        None => {
            proof {
                if valid_color(v@) {
                    assert(forall|i: int| 0 <= i < 6 ==> is_hex_digit(hexpart@[i]));
                }
            }
            None
        },
    }
}

/// The metadata tags as abstract key/optional-value pairs.
pub open spec fn tag_views(tags: Seq<(String, Option<String>)>) -> Seq<
    (Seq<char>, Option<Seq<char>>),
> {
    tags.map_values(
        |t: (String, Option<String>)|
            (
                t.0@,
                match t.1 {
                    Some(v) => Some(v@),
                    None => None,
                },
            ),
    )
}

/// One metadata tag applied to the decoder state `(id, username, color)`:
/// a non-empty `display-name` overrides the username, `id` sets the id,
/// a non-empty `color` sets the color when well formed and aborts the
/// decode when malformed; everything else changes nothing.
pub open spec fn apply_tag(
    st: (Seq<char>, Seq<char>, (u8, u8, u8)),
    tag: (Seq<char>, Option<Seq<char>>),
) -> Option<(Seq<char>, Seq<char>, (u8, u8, u8))> {
    match tag.1 {
        None => Some(st),
        Some(v) => {
            if tag.0 == "display-name"@ {
                if v.len() > 0 {
                    Some((st.0, v, st.2))
                } else {
                    Some(st)
                }
            } else if tag.0 == "id"@ {
                Some((v, st.1, st.2))
            } else if tag.0 == "color"@ {
                if v.len() == 0 {
                    Some(st)
                } else if valid_color(v) {
                    Some((st.0, st.1, color_of(v)))
                } else {
                    None
                }
            } else {
                Some(st)
            }
        },
    }
}

/// The decoder state after all tags, in order, or `None` once a malformed
/// color aborted the decode.
pub open spec fn apply_tags(
    st: (Seq<char>, Seq<char>, (u8, u8, u8)),
    tags: Seq<(Seq<char>, Option<Seq<char>>)>,
) -> Option<(Seq<char>, Seq<char>, (u8, u8, u8))>
    decreases tags.len(),
{
    if tags.len() == 0 {
        Some(st)
    } else {
        match apply_tag(st, tags[0]) {
            None => None,
            Some(st2) => apply_tags(st2, tags.skip(1)),
        }
    }
}

pub open spec fn source_view(s: Option<String>) -> Option<Seq<char>> {
    match s {
        Some(n) => Some(n@),
        None => None,
    }
}

/// The decoder state every message starts from: empty id, the protocol
/// nickname (or empty when the wire gave none), and white.
pub open spec fn initial_state(source: Option<Seq<char>>) -> (Seq<char>, Seq<char>, (u8, u8, u8)) {
    (
        Seq::empty(),
        match source {
            Some(n) => n,
            None => Seq::empty(),
        },
        (255u8, 255u8, 255u8),
    )
}

/// Decodes one inbound chat message into a `Message` event: the username
/// defaults to the protocol-level sender and a non-empty `display-name`
/// tag overrides it; the id comes from the `id` tag, else stays empty; the
/// color comes from a well-formed `color` tag, else stays white; the body
/// is the verbatim text. A malformed color drops this one message (`None`),
/// never the session.
pub fn parse_privmsg(msg: &WireMessage, text: &str) -> (r: Option<TwitchCommand>)
    ensures
        match apply_tags(initial_state(source_view(msg.source_nickname)), tag_views(msg.tags@)) {
            Some(st) => r matches Some(cmd) && cmd matches TwitchCommand::Message {
                id,
                username,
                message,
                color,
            } && id@ == st.0 && username@ == st.1 && color == st.2 && message@ == text@,
            None => r is None,
        },
{
    let ghost all_tags = tag_views(msg.tags@);
    let ghost st0 = initial_state(source_view(msg.source_nickname));
    let display_name_key = "display-name".to_owned();
    let id_key = "id".to_owned();
    let color_key = "color".to_owned();
    let mut id = String::new();
    let mut username = match &msg.source_nickname {
        Some(n) => n.clone(),
        None => String::new(),
    };
    let mut color: (u8, u8, u8) = (255, 255, 255);
    let n = msg.tags.len();
    proof {
        assert(all_tags.skip(0) =~= all_tags);
    }
    let mut k: usize = 0;
    while k < n
        invariant
            0 <= k <= n,
            n == msg.tags@.len(),
            all_tags == tag_views(msg.tags@),
            st0 == initial_state(source_view(msg.source_nickname)),
            all_tags.len() == n,
            display_name_key@ == "display-name"@,
            id_key@ == "id"@,
            color_key@ == "color"@,
            apply_tags(st0, all_tags) == apply_tags(
                (id@, username@, color),
                all_tags.skip(k as int),
            ),
        decreases n - k,
    {
        let ghost st_before = (id@, username@, color);
        let tag = &msg.tags[k];
        proof {
            assert(all_tags[k as int] == (
                tag.0@,
                match tag.1 {
                    Some(v) => Some(v@),
                    None => None,
                },
            ));
            assert(all_tags.skip(k as int)[0] == all_tags[k as int]);
            assert(all_tags.skip(k as int).skip(1) =~= all_tags.skip(k as int + 1));
        }
        match &tag.1 {
            None => {},
            Some(v) => {
                if tag.0 == display_name_key {
                    if v.as_str().unicode_len() > 0 {
                        username = v.clone();
                    }
                } else if tag.0 == id_key {
                    id = v.clone();
                } else if tag.0 == color_key {
                    if v.as_str().unicode_len() > 0 {
                        match parse_color(v.as_str()) {
                            Some(c) => {
                                color = c;
                            },
                            None => {
                                proof {
                                    assert(apply_tag(st_before, all_tags[k as int]) is None);
                                    assert(apply_tags(st_before, all_tags.skip(k as int)) is None);
                                }
                                return None;
                            },
                        }
                    }
                }
            },
        }
        proof {
            assert(apply_tag(st_before, all_tags[k as int]) == Some((id@, username@, color)));
            assert(apply_tags(st_before, all_tags.skip(k as int)) == apply_tags(
                (id@, username@, color),
                all_tags.skip(k as int + 1),
            ));
        }
        k += 1;
    }
    proof {
        assert(all_tags.skip(n as int) =~= Seq::<(Seq<char>, Option<Seq<char>>)>::empty());
        assert(apply_tags((id@, username@, color), all_tags.skip(n as int)) == Some(
            (id@, username@, color),
        ));
    }
    Some(TwitchCommand::Message { id, username, message: text.to_owned(), color })
}

/// The synthesized anonymous login name: a fixed prefix followed by the
/// decimal digits of a 32-bit suffix; no credential is involved.
pub fn anonymous_login(suffix: u32) -> (s: String)
    ensures
        s@ == "justinfan"@ + decimal_digits(suffix as int),
{
    let mut s = "justinfan".to_owned();
    append_decimal(&mut s, suffix);
    s
}

} // verus!
