//! What the replies of the system's keychain mean.

use vstd::prelude::*;

use vstd::utf8::{decode_utf8, encode_utf8, encode_utf8_decode_utf8, encode_utf8_valid_utf8, valid_utf8};

use crate::text::utf8_text;

verus! {

/// The service under which passwords are kept.
pub const SERVICE: &'static str = "kafkamitter";

/// The code with which the keychain says that there is no such item.
pub const ERR_SEC_ITEM_NOT_FOUND: i32 = -25300;

/// Why there is no answer from the keychain.
#[derive(Debug, Clone, Copy, PartialEq, Eq, Structural)]
pub enum KeychainError {
    Code(i32),
    NotUtf8,
}

/// What a reply to a read means: the password, none where there is no item, or an
/// error.
pub open spec fn password_of(reply: Result<Seq<u8>, i32>) -> Result<Option<Seq<char>>, KeychainError> {
    match reply {
        Ok(bytes) => if valid_utf8(bytes) {
            Ok(Some(decode_utf8(bytes)))
        } else {
            Err(KeychainError::NotUtf8)
        },
        Err(code) => if code == ERR_SEC_ITEM_NOT_FOUND {
            Ok(None)
        } else {
            Err(KeychainError::Code(code))
        },
    }
}

/// The bytes of a reply.
pub open spec fn reply_view(reply: Result<Vec<u8>, i32>) -> Result<Seq<u8>, i32> {
    match reply {
        Ok(bytes) => Ok(bytes@),
        Err(code) => Err(code),
    }
}

/// Reads the reply to a request for a password. An item that is missing is no error.
pub fn get_password(reply: Result<Vec<u8>, i32>) -> (password: Result<Option<String>, KeychainError>)
    ensures
        match password {
            Ok(Some(text)) => password_of(reply_view(reply)) == Ok::<_, KeychainError>(Some(text@)),
            Ok(None) => password_of(reply_view(reply)) == Ok::<_, KeychainError>(None::<Seq<char>>),
            Err(error) => password_of(reply_view(reply)) == Err::<Option<Seq<char>>, _>(error),
        },
{
    match reply {
        Ok(bytes) => match utf8_text(bytes) {
            Some(text) => Ok(Some(text)),
            None => Err(KeychainError::NotUtf8),
        },
        Err(code) => {
            if code == ERR_SEC_ITEM_NOT_FOUND {
                Ok(None)
            } else {
                Err(KeychainError::Code(code))
            }
        },
    }
}

/// Reads the reply to a request to delete a password. An item that is missing is no
/// error.
pub fn delete_password(reply: Result<(), i32>) -> (done: Result<(), KeychainError>)
    ensures
        done == (match reply {
            Ok(_) => Ok(()),
            Err(code) => if code == ERR_SEC_ITEM_NOT_FOUND {
                Ok(())
            } else {
                Err(KeychainError::Code(code))
            },
        }),
{
    match reply {
        Ok(_) => Ok(()),
        Err(code) => {
            if code == ERR_SEC_ITEM_NOT_FOUND {
                Ok(())
            } else {
                Err(KeychainError::Code(code))
            }
        },
    }
}

// ---- laws ----

/// A password that was stored is read back, an item that is missing is none, and any other
/// code is an error.
pub proof fn a_stored_password_is_read_back(password: Seq<char>, code: i32)
    ensures
        password_of(Ok(encode_utf8(password))) == Ok::<_, KeychainError>(Some(password)),
        password_of(Err(-25300i32)) == Ok::<_, KeychainError>(None::<Seq<char>>),
        code != -25300 ==> password_of(Err(code)) == Err::<Option<Seq<char>>, _>(KeychainError::Code(code)),
{
    encode_utf8_valid_utf8(password);
    encode_utf8_decode_utf8(password);
}

/// An item that is missing need not be deleted; any other failure is told.
pub proof fn deleting_nothing_is_no_error(reply: Result<(), i32>, done: Result<(), KeychainError>)
    requires
        call_ensures(delete_password, (reply,), done),
    ensures
        done is Ok <==> reply is Ok || reply == Err::<(), i32>(-25300i32),
        done matches Err(error) ==> (reply matches Err(code) && error == KeychainError::Code(code)),
{
}

/// A password that is kept is found as it was written, and one that is not kept is none.
pub proof fn a_kept_password_is_found(
    reply: Result<Vec<u8>, i32>,
    written: Seq<char>,
    password: Result<Option<String>, KeychainError>,
)
    requires
        call_ensures(get_password, (reply,), password),
    ensures
        reply matches Ok(bytes) ==> (bytes@ == encode_utf8(written) ==> (password matches Ok(Some(text)) && text@
            == written)),
        reply == Err::<Vec<u8>, i32>(-25300i32) ==> (password matches Ok(none) && none is None),
        reply matches Err(code) ==> (code != -25300 ==> (password matches Err(error) && error
            == KeychainError::Code(code))),
{
    if let Err(code) = reply {
        a_stored_password_is_read_back(written, code);
    } else {
        a_stored_password_is_read_back(written, 0);
    }
}

} // verus!
