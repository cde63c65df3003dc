//! What to hand out once the host has answered a request for an element.

use crate::dom::Dom;
use vstd::prelude::*;

verus! {

/// Why no element could be handed out.
#[derive(Debug)]
pub enum CreateError<J, E> {
    /// The host refused to create the element and gave this reason.
    Rejected(J),
    /// The host created an element, but not one of the type asked for; the
    /// element comes back as it was.
    WrongType(E),
}

/// What is handed out for the outcome of the cast.
pub open spec fn handed_out<J, E, T>(cast: Result<T, E>) -> Result<Dom<T>, CreateError<J, E>> {
    match cast {
        Ok(inner) => Ok(Dom { inner }),
        Err(element) => Err(CreateError::WrongType(element)),
    }
}

/// Decides what to hand out once the host has answered a request for a new
/// element. `created` is the host's answer and `cast` converts an element
/// into the type asked for, or gives it back. A refusal of the host is
/// reported without the cast being tried; otherwise the outcome of the cast
/// decides.
pub fn create_element<J, E, T, C: FnOnce(E) -> Result<T, E>>(created: Result<E, J>, cast: C) -> (r:
    Result<Dom<T>, CreateError<J, E>>)
    requires
        created matches Ok(element) ==> call_requires(cast, (element,)),
    ensures
        created matches Err(reason) ==> r == Err::<Dom<T>, CreateError<J, E>>(
            CreateError::Rejected(reason),
        ),
        created matches Ok(element) ==> exists|outcome: Result<T, E>|
            call_ensures(cast, (element,), outcome) && r == handed_out::<J, E, T>(outcome),
{
    match created {
        Err(reason) => Err(CreateError::Rejected(reason)),
        Ok(element) => {
            let outcome = cast(element);
            let r = match outcome {
                Ok(inner) => Ok(Dom { inner }),
                Err(element) => Err(CreateError::WrongType(element)),
            };
            assert(r == handed_out::<J, E, T>(outcome));
            r
        },
    }
}

} // verus!
