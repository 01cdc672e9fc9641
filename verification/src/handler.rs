use vstd::prelude::*;
use vstd::utf8::{decode_utf8, valid_utf8};

use crate::logic::MessageMeta;
use crate::message_manager::{Content, MessageContainer};

verus! {

/// What the headers of a connection request say about who connects.
pub enum Login {
    /// The login, from the last `login` header.
    Found(String),
    /// No `login` header.
    Missing,
    /// A `login` header whose value is not UTF-8 text.
    Unreadable,
}

/// The value of a [`Login`].
pub enum LoginView {
    Found(Seq<char>),
    Missing,
    Unreadable,
}

impl View for Login {
    type V = LoginView;

    open spec fn view(&self) -> LoginView {
        match self {
            Login::Found(s) => LoginView::Found(s@),
            Login::Missing => LoginView::Missing,
            Login::Unreadable => LoginView::Unreadable,
        }
    }
}

/// The headers of a request, each a name and a value.
pub open spec fn headers_view(h: Seq<(String, Vec<u8>)>) -> Seq<(Seq<char>, Seq<u8>)> {
    h.map_values(|p: (String, Vec<u8>)| (p.0@, p.1@))
}

/// Reading the headers in order: each `login` header gives the login, and the
/// first one whose value is not UTF-8 text stops the reading.
pub open spec fn login_of(hs: Seq<(Seq<char>, Seq<u8>)>) -> LoginView
    decreases hs.len(),
{
    if hs.len() == 0 {
        LoginView::Missing
    } else {
        let before = login_of(hs.drop_last());
        let (name, value) = hs.last();
        if before is Unreadable {
            before
        } else if name == "login"@ {
            if valid_utf8(value) {
                LoginView::Found(decode_utf8(value))
            } else {
                LoginView::Unreadable
            }
        } else {
            before
        }
    }
}

/// The text that `bytes` encode, by `std::str::from_utf8`, which accepts
/// exactly the byte sequences that are valid UTF-8. The contract claims that
/// the result is some text exactly when the bytes are valid UTF-8, and that
/// the text is the characters they encode.
#[verifier::external_body]
fn utf8_text(bytes: &Vec<u8>) -> (r: Option<String>)
    ensures
        r is Some <==> valid_utf8(bytes@),
        r matches Some(s) ==> s@ == decode_utf8(bytes@),
{
    match std::str::from_utf8(bytes.as_slice()) {
        Ok(s) => Some(s.to_string()),
        Err(_) => None,
    }
}

/// Who a connection request says is connecting.
pub fn login_from_headers(headers: &Vec<(String, Vec<u8>)>) -> (r: Login)
    ensures
        r@ == login_of(headers_view(headers@)),
{
    let key = String::from_str("login");
    proof {
        reveal_strlit("login");
    }
    let mut login: Login = Login::Missing;
    let ghost hs = headers_view(headers@);
    assert(hs.take(0).len() == 0);
    for i in 0..headers.len()
        invariant
            hs == headers_view(headers@),
            key@ == "login"@,
            login@ == login_of(hs.take(i as int)),
            !(login@ is Unreadable),
    {
        assert(hs.take(i + 1).drop_last() =~= hs.take(i as int));
        if headers[i].0 == key {
            match utf8_text(&headers[i].1) {
                Some(s) => {
                    login = Login::Found(s);
                },
                None => {
                    proof {
                        assert(login_of(hs.take(i + 1)) is Unreadable);
                        lemma_unreadable_stays(hs, i + 1);
                        assert(hs.take(hs.len() as int) =~= hs);
                    }
                    return Login::Unreadable;
                },
            }
        }
    }
    assert(hs.take(headers.len() as int) =~= hs);
    login
}

/// Once the reading has stopped, later headers change nothing.
proof fn lemma_unreadable_stays(hs: Seq<(Seq<char>, Seq<u8>)>, i: int)
    requires
        0 <= i <= hs.len(),
        login_of(hs.take(i)) is Unreadable,
    ensures
        login_of(hs) is Unreadable,
    decreases hs.len() - i,
{
    if i < hs.len() {
        assert(hs.take(i + 1).drop_last() =~= hs.take(i));
        lemma_unreadable_stays(hs, i + 1);
    } else {
        assert(hs.take(i) =~= hs);
    }
}

/// What a connection of `login` hands on when a text message arrives: the
/// text, for the room everyone plays in.
pub fn incoming(login: &String, text: String) -> (m: MessageContainer)
    ensures
        m.meta.name@ == login@,
        m.meta.room@ == "first_room"@,
        m.message == Content::Message(text),
{
    MessageContainer {
        meta: MessageMeta { name: login.clone(), room: String::from_str("first_room") },
        message: Content::Message(text),
    }
}

/// Only `login` headers matter: a header of another name, wherever it comes,
/// leaves what the headers say unchanged. A readable `login` header after
/// readable ones gives its own value as the login, and one that is not
/// readable makes the login unreadable.
pub proof fn lemma_login_headers(hs: Seq<(Seq<char>, Seq<u8>)>, name: Seq<char>, value: Seq<u8>)
    ensures
        name != "login"@ ==> login_of(hs.push((name, value))) == login_of(hs),
        name == "login"@ && !(login_of(hs) is Unreadable) && valid_utf8(value) ==> login_of(hs.push((name, value)))
            == LoginView::Found(decode_utf8(value)),
        name == "login"@ && !valid_utf8(value) ==> login_of(hs.push((name, value))) is Unreadable,
        login_of(hs) is Unreadable ==> login_of(hs.push((name, value))) is Unreadable,
{
    assert(hs.push((name, value)).drop_last() =~= hs);
}

} // verus!
