//! The consumer's Python module, as far as it decides anything: finding the
//! producer module's record, and running code on a producer object.

use vstd::prelude::*;
use vstd::string::*;
use crate::abi::{status_code, status_of_code, status_text, APyCapiV1, AStatus};
use crate::rt::{decimal, decimal_text};
use crate::vtable::Table;

verus! {

/// The oldest record that has every field this module needs.
pub const CAPI_REQUIRED: u32 = 3;

/// The version that introduced scoped borrows.
pub const CAPI_WITH_A: u32 = 5;

/// The name that the producer module's capsule has to have.
pub const CAPSULE_NAME: &'static str = "a._C_API";

/// What was found under the producer module's attribute.
pub struct Found {
    pub is_capsule: bool,
    pub name: Option<String>,
    pub capi: APyCapiV1,
}

/// Why the record cannot be used.
#[derive(Debug, Clone, Copy, PartialEq, Eq, Structural)]
pub enum CapiError {
    NotACapsule,
    NameMismatch,
    TooOld(u32),
}

/// The message of such an error.
pub open spec fn capi_error_text(e: CapiError) -> Seq<char> {
    match e {
        CapiError::NotACapsule => "a._C_API is not a capsule"@,
        CapiError::NameMismatch => "a._C_API capsule name mismatch"@,
        CapiError::TooOld(v) => "a._C_API version "@ + decimal_text(v as nat) + " < required "@
            + decimal_text(CAPI_REQUIRED as nat),
    }
}

impl CapiError {
    /// The message.
    pub fn text(self) -> (r: String)
        ensures
            r@ == capi_error_text(self),
    {
        match self {
            CapiError::NotACapsule => "a._C_API is not a capsule".to_owned(),
            CapiError::NameMismatch => "a._C_API capsule name mismatch".to_owned(),
            CapiError::TooOld(v) => {
                let mut s = "a._C_API version ".to_owned();
                s.append(decimal(v).as_str());
                s.append(" < required ");
                s.append(decimal(CAPI_REQUIRED).as_str());
                s
            },
        }
    }
}

/// Whether what was found can be used: a capsule of the right name whose
/// version is at least the one required. A newer one is fine.
pub open spec fn usable(found: Found) -> Result<APyCapiV1, CapiError> {
    if !found.is_capsule {
        Err(CapiError::NotACapsule)
    } else if !(found.name matches Some(n) && n@ == CAPSULE_NAME@) {
        Err(CapiError::NameMismatch)
    } else if found.capi.abi_version < CAPI_REQUIRED {
        Err(CapiError::TooOld(found.capi.abi_version))
    } else {
        Ok(found.capi)
    }
}

/// Whether two texts are the same.
fn same_text(a: &str, b: &str) -> (r: bool)
    ensures
        r == (a@ == b@),
{
    let n = a.unicode_len();
    if n != b.unicode_len() {
        return false;
    }
    let mut i: usize = 0;
    while i < n
        invariant
            n == a@.len(),
            n == b@.len(),
            i <= n,
            forall|j: int| 0 <= j < i ==> a@[j] == b@[j],
        decreases n - i,
    {
        if a.get_char(i) != b.get_char(i) {
            return false;
        }
        i = i + 1;
    }
    assert(a@ =~= b@);
    true
}

/// The record, once it was found, and the function table that came with it.
pub struct Capi {
    pub record: Option<APyCapiV1>,
    pub table: Table,
}

impl Capi {
    /// Nothing found yet.
    pub fn new() -> (r: Capi)
        ensures
            r.record is None,
            r.table.installed is None,
    {
        Capi { record: None, table: Table::new() }
    }

    /// Whether the producer module has yet to be looked at.
    pub fn is_missing(&self) -> (r: bool)
        ensures
            r == (self.record is None),
    {
        self.record.is_none()
    }

    /// The record: the one that was found first, or what was found now if
    /// that can be used. A failure is not remembered.
    pub fn capi(&mut self, found: Found) -> (r: Result<APyCapiV1, CapiError>)
        ensures
            match old(self).record {
                Some(c) => r == Ok::<APyCapiV1, CapiError>(c) && *final(self) == *old(self),
                None => {
                    &&& r == usable(found)
                    &&& final(self).record == match r {
                        Ok(c) => Some(c),
                        Err(_) => None,
                    }
                    &&& final(self).table == match r {
                        Ok(c) => old(self).table.offered(c.vtable),
                        Err(_) => old(self).table,
                    }
                },
            },
    {
        if let Some(c) = self.record {
            return Ok(c);
        }
        if !found.is_capsule {
            return Err(CapiError::NotACapsule);
        }
        let named = match &found.name {
            Some(n) => same_text(n.as_str(), CAPSULE_NAME),
            None => false,
        };
        if !named {
            return Err(CapiError::NameMismatch);
        }
        if found.capi.abi_version < CAPI_REQUIRED {
            return Err(CapiError::TooOld(found.capi.abi_version));
        }
        self.table.init_vtable(found.capi.vtable);
        self.record = Some(found.capi);
        Ok(found.capi)
    }
}

/// How a producer object is reached.
#[derive(Debug, Clone, Copy, PartialEq, Eq, Structural)]
pub enum Route {
    /// Through a handle that is only lent: all that an old record offers.
    Unwrap,
    /// Inside a scoped borrow.
    Scoped,
}

/// The route that a record of this version offers.
pub fn route(capi: &APyCapiV1) -> (r: Route)
    ensures
        r == (if capi.abi_version < CAPI_WITH_A {
            Route::Unwrap
        } else {
            Route::Scoped
        }),
{
    if capi.abi_version < CAPI_WITH_A {
        Route::Unwrap
    } else {
        Route::Scoped
    }
}

/// What running code on a producer object can fail with, as Python sees it.
pub enum WithError {
    /// A type error with this message.
    Type(String),
    /// A runtime error with this message.
    Runtime(String),
    /// The code panicked; the panic goes on.
    Panicked,
}

/// Such an error as a value.
pub enum WithErrorView {
    Type(Seq<char>),
    Runtime(Seq<char>),
    Panicked,
}

impl View for WithError {
    type V = WithErrorView;

    open spec fn view(&self) -> WithErrorView {
        match *self {
            WithError::Type(s) => WithErrorView::Type(s@),
            WithError::Runtime(s) => WithErrorView::Runtime(s@),
            WithError::Panicked => WithErrorView::Panicked,
        }
    }
}

/// The message for an object of another type.
pub const NOT_AN_A: &'static str = "expected an a.A object";

/// The message for a record that claims success without having called.
pub const NOT_CALLED: &'static str = "a.with_a reported Ok without invoking the callback";

/// The message for an object that is borrowed elsewhere.
pub const BORROWED: &'static str =
    "the a.A object is already borrowed (re-entrant or concurrent access)";

/// What travels into the scoped callback and out of it.
pub struct WithCtx<R> {
    /// Whether the code has yet to run.
    pub waiting: bool,
    pub out: Option<R>,
    pub panicked: bool,
}

impl<R> WithCtx<R> {
    /// The code has yet to run.
    pub fn new() -> (r: WithCtx<R>)
        ensures
            r == (WithCtx::<R> { waiting: true, out: None, panicked: false }),
    {
        WithCtx { waiting: true, out: None, panicked: false }
    }

    /// Entered by the producer module with the borrow held: says whether the
    /// code is to run. It runs at most once.
    pub fn enter(&mut self) -> (r: bool)
        ensures
            r == old(self).waiting,
            *final(self) == (WithCtx::<R> { waiting: false, ..*old(self) }),
    {
        let r = self.waiting;
        self.waiting = false;
        r
    }

    /// The wire code to return from the callback. `ran` is what the code
    /// gave, none where it panicked; `entered` is what `enter` said.
    pub fn leave(&mut self, entered: bool, ran: Option<R>) -> (r: i32)
        ensures
            !entered ==> r == status_code(AStatus::Panic) && *final(self) == *old(self),
            entered ==> match ran {
                Some(v) => r == status_code(AStatus::Okay) && *final(self) == (WithCtx::<R> {
                    out: Some(v),
                    ..*old(self)
                }),
                None => r == status_code(AStatus::Panic) && *final(self) == (WithCtx::<R> {
                    panicked: true,
                    ..*old(self)
                }),
            },
    {
        if !entered {
            return AStatus::Panic.code();
        }
        match ran {
            Some(v) => {
                self.out = Some(v);
                AStatus::Okay.code()
            },
            None => {
                self.panicked = true;
                AStatus::Panic.code()
            },
        }
    }
}

/// What the caller of a scoped borrow sees, given the wire code that came
/// back and what the callback left.
pub open spec fn with_outcome<R>(ctx: WithCtx<R>, code: i32) -> Result<R, WithErrorView> {
    if ctx.panicked {
        Err(WithErrorView::Panicked)
    } else {
        match status_of_code(code as int) {
            AStatus::Okay => match ctx.out {
                Some(v) => Ok(v),
                None => Err(WithErrorView::Runtime(NOT_CALLED@)),
            },
            AStatus::InvalidArgument => Err(WithErrorView::Type(NOT_AN_A@)),
            AStatus::Busy => Err(WithErrorView::Runtime(BORROWED@)),
            s => Err(WithErrorView::Runtime("a.with_a failed: "@ + status_text(s))),
        }
    }
}

/// Reads the outcome of a scoped borrow.
pub fn with_a<R>(ctx: WithCtx<R>, code: i32) -> (r: Result<R, WithError>)
    ensures
        match r {
            Ok(v) => with_outcome(ctx, code) == Ok::<R, WithErrorView>(v),
            Err(e) => with_outcome(ctx, code) == Err::<R, WithErrorView>(e@),
        },
{
    if ctx.panicked {
        return Err(WithError::Panicked);
    }
    match AStatus::from_code(code) {
        AStatus::Okay => match ctx.out {
            Some(v) => Ok(v),
            None => Err(WithError::Runtime(NOT_CALLED.to_owned())),
        },
        AStatus::InvalidArgument => Err(WithError::Type(NOT_AN_A.to_owned())),
        AStatus::Busy => Err(WithError::Runtime(BORROWED.to_owned())),
        s => {
            let mut text = "a.with_a failed: ".to_owned();
            text.append(s.text());
            Err(WithError::Runtime(text))
        },
    }
}

/// The outcome on the older route. Nothing ran where the handle was null,
/// which is a type error.
pub fn with_unwrapped<R>(ran: Option<R>) -> (r: Result<R, WithError>)
    ensures
        match r {
            Ok(v) => ran == Some(v),
            Err(e) => ran is None && e@ == WithErrorView::Type(NOT_AN_A@),
        },
{
    match ran {
        Some(v) => Ok(v),
        None => Err(WithError::Type(NOT_AN_A.to_owned())),
    }
}

/// The message for a frame that could not be wrapped. Wrapping consumes the
/// reference whatever happens, so nothing is left to release.
pub const WRAP_FAILED: &'static str = "a.wrap_frame failed";

/// The outcome of wrapping a frame into an object of the producer's module.
pub fn wrapped(object: u64) -> (r: Result<u64, &'static str>)
    ensures
        match r {
            Ok(o) => object != 0 && o == object,
            Err(m) => object == 0 && m@ == WRAP_FAILED@,
        },
{
    if object == 0 {
        Err(WRAP_FAILED)
    } else {
        Ok(object)
    }
}

/// Where a record is accepted, so is every newer one under the same name.
pub proof fn law_newer_records_are_accepted(found: Found, newer: Found)
    requires
        usable(found) is Ok,
        newer.is_capsule,
        newer.name == found.name,
        newer.capi.abi_version >= found.capi.abi_version,
    ensures
        usable(newer) == Ok::<APyCapiV1, CapiError>(newer.capi),
{
}

/// A callback that ran and returned comes back as its value; one that was
/// entered a second time, or unwound, never comes back as success.
pub proof fn law_scoped_call_comes_back<R>(ctx: WithCtx<R>, v: R, code: i32)
    ensures
        with_outcome(WithCtx { waiting: false, out: Some(v), panicked: false }, 0) == Ok::<
            R,
            WithErrorView,
        >(v),
        with_outcome(WithCtx { panicked: true, ..ctx }, code) is Err,
        code == status_code(AStatus::Panic) ==> with_outcome(ctx, code) is Err,
{
}

/// What was found is used exactly where it is a capsule of the right name
/// whose version is at least the one required, and then as it is. Otherwise
/// the first of these that fails is told.
pub proof fn law_usable_records(found: Found)
    ensures
        usable(found) is Ok <==> found.is_capsule && (found.name matches Some(n) && n@
            == "a._C_API"@) && found.capi.abi_version >= 3,
        usable(found) matches Ok(c) ==> c == found.capi,
        usable(found) matches Err(e) ==> match e {
            CapiError::NotACapsule => !found.is_capsule,
            CapiError::NameMismatch => found.is_capsule && !(found.name matches Some(n) && n@
                == "a._C_API"@),
            CapiError::TooOld(v) => found.is_capsule && (found.name matches Some(n) && n@
                == "a._C_API"@) && v == found.capi.abi_version && v < 3,
        },
        found.is_capsule && (found.name matches Some(n) && n@ == "a._C_API"@)
            && found.capi.abi_version < 3 ==> usable(found) == Err::<APyCapiV1, CapiError>(
            CapiError::TooOld(found.capi.abi_version),
        ),
{
}

/// What the caller of a scoped borrow sees for each wire code: a panic goes
/// on whatever the code says; otherwise success is the value that the code
/// left, an invalid argument is a type error, and everything else a runtime
/// error whose message says what it is.
pub proof fn law_outcome_of_a_scoped_borrow<R>(ctx: WithCtx<R>, code: i32)
    ensures
        with_outcome(ctx, code) == Err::<R, WithErrorView>(WithErrorView::Panicked)
            <==> ctx.panicked,
        with_outcome(ctx, code) is Ok <==> !ctx.panicked && code == 0 && ctx.out is Some,
        with_outcome(ctx, code) matches Ok(v) ==> ctx.out == Some(v),
        !ctx.panicked && code == -2 ==> with_outcome(ctx, code) == Err::<R, WithErrorView>(
            WithErrorView::Type("expected an a.A object"@),
        ),
        with_outcome(ctx, code) matches Err(WithErrorView::Type(_)) ==> code == -2,
        !ctx.panicked && code == -3 ==> with_outcome(ctx, code) == Err::<R, WithErrorView>(
            WithErrorView::Runtime(
                "the a.A object is already borrowed (re-entrant or concurrent access)"@,
            ),
        ),
        !ctx.panicked && code == 0 && ctx.out is None ==> with_outcome(ctx, code) == Err::<
            R,
            WithErrorView,
        >(WithErrorView::Runtime("a.with_a reported Ok without invoking the callback"@)),
        !ctx.panicked && code != 0 && code != -2 && code != -3 ==> with_outcome(ctx, code) == Err::<
            R,
            WithErrorView,
        >(WithErrorView::Runtime("a.with_a failed: "@ + status_text(status_of_code(code as int)))),
{
}

/// The messages for a record that cannot be used; one for a record that is
/// too old names both versions.
pub proof fn law_capi_messages(v: u32)
    ensures
        capi_error_text(CapiError::NotACapsule) == "a._C_API is not a capsule"@,
        capi_error_text(CapiError::NameMismatch) == "a._C_API capsule name mismatch"@,
        capi_error_text(CapiError::TooOld(v)) == "a._C_API version "@ + decimal_text(v as nat)
            + " < required "@ + decimal_text(3),
{
}

/// An error as a value is of the same sort, with the same message.
pub proof fn law_error_as_a_value(e: WithError)
    ensures
        match e {
            WithError::Type(m) => e@ == WithErrorView::Type(m@),
            WithError::Runtime(m) => e@ == WithErrorView::Runtime(m@),
            WithError::Panicked => e@ is Panicked,
        },
{
}

} // verus!
