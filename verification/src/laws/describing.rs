//! Laws of how errors are described.

use vstd::prelude::*;

use crate::connection::Error;
use crate::driver::DriverError;
use crate::model::{from_transport, shutdown_result};
use crate::text::{decimal_chars, digit_char};
use crate::transport::TransportError;

verus! {

/// The number that some decimal digits stand for.
pub open spec fn number(digits: Seq<char>) -> int
    decreases digits.len(),
{
    if digits.len() == 0 {
        0
    } else {
        number(digits.drop_last()) * 10 + (digits.last() as int - '0' as int)
    }
}

/// A number in decimal notation reads back as that number. It is made of digits,
/// and does not begin with a zero unless it is zero.
pub proof fn decimal_notation_reads_back(n: nat)
    ensures
        number(decimal_chars(n)) == n,
        decimal_chars(n).len() > 0,
        forall|i: int|
            0 <= i < decimal_chars(n).len() ==> '0' <= #[trigger] decimal_chars(n)[i] <= '9',
        n > 0 ==> decimal_chars(n)[0] != '0',
    decreases n,
{
    let all = decimal_chars(n);
    if n < 10 {
        assert(number(all.drop_last()) == 0);
        assert(all.last() == digit_char(n));
    } else {
        let first = decimal_chars(n / 10);
        decimal_notation_reads_back(n / 10);
        assert(all.drop_last() =~= first);
        assert(all.last() == digit_char(n % 10));
        assert(n == (n / 10) * 10 + n % 10);
        assert forall|i: int| 0 <= i < all.len() implies '0' <= #[trigger] all[i] <= '9' by {
            if i < first.len() {
                assert(all[i] == first[i]);
            }
        }
    }
}

/// An error of the QUIC layer is described by its name, and where it carries a
/// number by that number in brackets; an error of DoQ that stands for it, or of a
/// driver, says the same behind its own words.
pub proof fn numbers_of_errors_are_in_brackets(n: u64)
    ensures
        TransportError::InvalidStreamState(n).words() == "InvalidStreamState("@ + decimal_chars(
            n as nat,
        ) + ")"@,
        TransportError::StreamStopped(n).words() == "StreamStopped("@ + decimal_chars(n as nat)
            + ")"@,
        TransportError::StreamReset(n).words() == "StreamReset("@ + decimal_chars(n as nat) + ")"@,
{
}

/// What an error says includes what the error that it stands for says.
pub proof fn errors_repeat_their_cause(e: TransportError, error: Error)
    ensures
        Error::TransportError(e).words() == "transport error: "@ + e.words(),
        DriverError::Doq(error).words() == error.words(),
{
}

/// Errors of the QUIC layer are passed on as they are, but that there is nothing
/// to do is no error of it; and a stream that is shut down may have ended before.
pub proof fn errors_of_the_quic_layer_are_passed_on(e: TransportError)
    ensures
        from_transport(e) == if e == TransportError::Done {
            Error::Done
        } else {
            Error::TransportError(e)
        },
        shutdown_result(Err(e)) == if e == TransportError::Done {
            Ok::<(), Error>(())
        } else {
            Err(Error::TransportError(e))
        },
        shutdown_result(Ok(())) == Ok::<(), Error>(()),
{
}

} // verus!
