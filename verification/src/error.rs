//! What can go wrong, and how it is put into words.

use vstd::prelude::*;
use vstd::string::*;

use crate::text::{cat2, cat3, dec, decimal, own};

verus! {

#[derive(Debug, Clone)]
pub enum Error {
    Format(String),
    Unsupported(String),
    MissingTensor(String),
    MissingKey(String),
    Backend { device: String, detail: String },
    OutOfMemory { device: String, requested: u64, available: u64 },
    NoDevice(String),
    Shape(String),
    /// The text of an input/output failure.
    Io(String),
}

/// The mathematical value of an [`Error`].
pub enum ErrorView {
    Format(Seq<char>),
    Unsupported(Seq<char>),
    MissingTensor(Seq<char>),
    MissingKey(Seq<char>),
    Backend { device: Seq<char>, detail: Seq<char> },
    OutOfMemory { device: Seq<char>, requested: u64, available: u64 },
    NoDevice(Seq<char>),
    Shape(Seq<char>),
    Io(Seq<char>),
}

impl View for Error {
    type V = ErrorView;

    open spec fn view(&self) -> ErrorView {
        match *self {
            Error::Format(m) => ErrorView::Format(m@),
            Error::Unsupported(m) => ErrorView::Unsupported(m@),
            Error::MissingTensor(n) => ErrorView::MissingTensor(n@),
            Error::MissingKey(k) => ErrorView::MissingKey(k@),
            Error::Backend { device, detail } => ErrorView::Backend {
                device: device@,
                detail: detail@,
            },
            Error::OutOfMemory { device, requested, available } => ErrorView::OutOfMemory {
                device: device@,
                requested,
                available,
            },
            Error::NoDevice(m) => ErrorView::NoDevice(m@),
            Error::Shape(m) => ErrorView::Shape(m@),
            Error::Io(m) => ErrorView::Io(m@),
        }
    }
}

/// `n` divided by 2^20 in tenths, to the nearest, and to the even one of two as near.
pub open spec fn mib_tenths_of(n: nat) -> nat {
    let whole = (n * 10) / 1048576;
    let rest = (n * 10) % 1048576;
    if rest > 524288 || (rest == 524288 && whole % 2 == 1) {
        whole + 1
    } else {
        whole
    }
}

/// A number of bytes in mebibytes, with one decimal.
pub open spec fn mib_text_of(n: nat) -> Seq<char> {
    let t = mib_tenths_of(n);
    dec(t / 10) + "."@ + dec(t % 10)
}

/// A number of bytes in mebibytes, with one decimal.
pub fn mib_text(n: u64) -> (r: String)
    ensures
        r@ == mib_text_of(n as nat),
{
    let wide: u128 = n as u128 * 10;
    let whole: u64 = (wide / 1048576) as u64;
    let rest: u64 = (wide % 1048576) as u64;
    let t: u64 = if rest > 524288 || (rest == 524288 && whole % 2 == 1) {
        whole + 1
    } else {
        whole
    };
    assert(t == mib_tenths_of(n as nat));
    cat3(decimal(t / 10).as_str(), ".", decimal(t % 10).as_str())
}

impl ErrorView {
    /// The sentence that reports the error.
    pub open spec fn text(self) -> Seq<char> {
        match self {
            ErrorView::Format(m) => "malformed GGUF: "@ + m,
            ErrorView::Unsupported(m) => "unsupported: "@ + m,
            ErrorView::MissingTensor(n) => "missing tensor: "@ + n,
            ErrorView::MissingKey(k) => "missing metadata key: "@ + k,
            ErrorView::Backend { device, detail } => device + " backend: "@ + detail,
            ErrorView::OutOfMemory { device, requested, available } => device
                + " out of memory: needed "@ + mib_text_of(requested as nat) + " MiB, "@
                + mib_text_of(available as nat) + " MiB free"@,
            ErrorView::NoDevice(m) => "no usable device: "@ + m,
            ErrorView::Shape(m) => "shape error: "@ + m,
            ErrorView::Io(m) => "io: "@ + m,
        }
    }
}

impl Error {
    /// The sentence that reports the error.
    pub fn message(&self) -> (r: String)
        ensures
            r@ == self@.text(),
    {
        match self {
            Error::Format(m) => cat2("malformed GGUF: ", m.as_str()),
            Error::Unsupported(m) => cat2("unsupported: ", m.as_str()),
            Error::MissingTensor(n) => cat2("missing tensor: ", n.as_str()),
            Error::MissingKey(k) => cat2("missing metadata key: ", k.as_str()),
            Error::Backend { device, detail } => cat3(
                device.as_str(),
                " backend: ",
                detail.as_str(),
            ),
            Error::OutOfMemory { device, requested, available } => {
                let mut out = cat2(device.as_str(), " out of memory: needed ");
                out.append(mib_text(*requested).as_str());
                out.append(" MiB, ");
                out.append(mib_text(*available).as_str());
                out.append(" MiB free");
                out
            },
            Error::NoDevice(m) => cat2("no usable device: ", m.as_str()),
            Error::Shape(m) => cat2("shape error: ", m.as_str()),
            Error::Io(m) => cat2("io: ", m.as_str()),
        }
    }
}

/// A failure of the device named `device`.
pub fn backend_err(device: &str, detail: String) -> (r: Error)
    ensures
        r@ == (ErrorView::Backend { device: device@, detail: detail@ }),
{
    Error::Backend { device: own(device), detail }
}

} // verus!
