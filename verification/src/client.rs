//! What a request attempt computes before and after it uses the connection.

use crate::error::{ClientError, ParseError};
use crate::exchange::{Exchange, ExchangeModel};
use crate::request::{body_of, lines_of, request_bytes, RequestMessage};
use crate::response::{ResponseMessage, ResponseModel};
use crate::url::{parse_address, parse_url, protocol_version, Address, URL};
use vstd::prelude::*;
use vstd::string::*;

verus! {

/// The method of a request for which the caller names none.
pub open spec fn default_method() -> Seq<u8> {
    "GET".spec_bytes()
}

/// The method of a request: the one that the caller names, or the default.
pub open spec fn method_of(method: Option<&str>) -> Seq<u8> {
    match method {
        Some(m) => m.spec_bytes(),
        None => default_method(),
    }
}

/// Parses the URL and builds the bytes of the request for it. The method is
/// `GET` where the caller names none. A URL that does not parse gives its
/// error, and no request.
pub fn prepare_request<'a>(
    url: &'a str,
    method: Option<&str>,
    body: Option<&String>,
    headers: Vec<&str>,
) -> (r: Result<(URL<'a>, Vec<u8>), ClientError>)
    ensures
        match r {
            Ok((address, request)) => {
                &&& parse_address(url.spec_bytes()) == Ok::<Address, ParseError>(address@)
                &&& request@ == request_bytes(
                    protocol_version(address@.scheme),
                    address@.host,
                    address@.path,
                    method_of(method),
                    body_of(body),
                    lines_of(headers@),
                )
            },
            Err(e) => e matches ClientError::Parse(cause) && parse_address(url.spec_bytes())
                == Err::<Address, ParseError>(cause),
        },
{
    let address = match parse_url(url) {
        Ok(address) => address,
        Err(cause) => { return Err(ClientError::Parse(cause)); },
    };
    let method = match method {
        Some(m) => m,
        None => "GET",
    };
    let request = RequestMessage::build(&address, method, headers, body).serialize();
    Ok((address, request))
}

/// How an exchange ended: the response of one that is complete, the error of
/// one that failed, and nothing while it is still under way.
pub open spec fn outcome_of(state: ExchangeModel) -> Option<Result<ResponseModel, ClientError>> {
    match state {
        ExchangeModel::Complete(response) => Some(Ok(response)),
        ExchangeModel::Failed(error) => Some(Err(error)),
        _ => None,
    }
}

/// Takes the result out of an exchange that has ended.
pub fn outcome(exchange: Exchange) -> (r: Option<Result<ResponseMessage, ClientError>>)
    ensures
        match r {
            Some(Ok(response)) => outcome_of(exchange@) == Some(
                Ok::<ResponseModel, ClientError>(response@),
            ),
            Some(Err(error)) => outcome_of(exchange@) == Some(
                Err::<ResponseModel, ClientError>(error),
            ),
            None => outcome_of(exchange@) is None,
        },
{
    match exchange {
        Exchange::Complete(response) => Some(Ok(response)),
        Exchange::Failed(error) => Some(Err(error)),
        _ => None,
    }
}

} // verus!
