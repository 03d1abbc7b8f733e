//! The speech model's files: which are needed, which are missing, and sizes
//! for progress reports.

use vstd::prelude::*;
use vstd::string::StringExecFns;
use crate::config::{join_path, joined_path};
use crate::text::{chars_of, decimal_digits, push_decimal, push_str, string_of};

verus! {

/// File name of the speech runtime's dynamic library.
pub const ORT_DLL_NAME: &'static str = "onnxruntime.dll";

/// Local names of the model files, in download order.
pub open spec fn model_file_names() -> Seq<Seq<char>> {
    seq!["encoder.onnx"@, "decoder.onnx"@, "joiner.onnx"@, "tokens.txt"@]
}

fn model_files() -> (r: Vec<&'static str>)
    ensures
        r@.map_values(|s: &str| s@) == model_file_names(),
{
    let r = vec!["encoder.onnx", "decoder.onnx", "joiner.onnx", "tokens.txt"];
    assert(r@.map_values(|s: &str| s@) =~= model_file_names());
    r
}

/// Whether `present` holds the name `name`.
pub open spec fn listed(present: Seq<String>, name: Seq<char>) -> bool {
    exists|i: int| 0 <= i < present.len() && (#[trigger] present[i])@ == name
}

fn same_text(a: &str, b: &str) -> (r: bool)
    ensures
        r == (a@ == b@),
{
    let x = chars_of(a);
    let y = chars_of(b);
    if x.len() != y.len() {
        return false;
    }
    let mut i: usize = 0;
    while i < x.len()
        invariant
            x@ == a@,
            y@ == b@,
            x@.len() == y@.len(),
            i <= x@.len(),
            forall|j: int| 0 <= j < i ==> x@[j] == y@[j],
        decreases x@.len() - i,
    {
        if x[i] != y[i] {
            assert(x@[i as int] != y@[i as int]);
            return false;
        }
        i = i + 1;
    }
    assert(x@ =~= y@);
    true
}

fn is_listed(present: &Vec<String>, name: &str) -> (r: bool)
    ensures
        r == listed(present@, name@),
{
    let mut i: usize = 0;
    while i < present.len()
        invariant
            i <= present@.len(),
            forall|j: int| 0 <= j < i ==> (#[trigger] present@[j])@ != name@,
        decreases present@.len() - i,
    {
        if same_text(present[i].as_str(), name) {
            return true;
        }
        i = i + 1;
    }
    false
}

/// Whether the speech runtime library is among the files `present` in the
/// model directory.
pub fn has_bundled_onnx_runtime(present: &Vec<String>) -> (r: bool)
    ensures
        r == listed(present@, ORT_DLL_NAME@),
{
    is_listed(present, ORT_DLL_NAME)
}

/// The model directory and what is expected in it.
pub struct ModelDownloader {
    model_dir: String,
}

impl ModelDownloader {
    pub closed spec fn spec_model_dir(&self) -> Seq<char> {
        self.model_dir@
    }

    pub fn new(model_dir: String) -> (r: ModelDownloader)
        ensures
            r.spec_model_dir() == model_dir@,
    {
        ModelDownloader { model_dir }
    }

    /// Path of the runtime library in the model directory.
    pub fn ort_dll_path(&self) -> (r: String)
        ensures
            r@ == joined_path(self.spec_model_dir(), ORT_DLL_NAME@),
    {
        join_path(self.model_dir.as_str(), ORT_DLL_NAME)
    }

    /// Path of a file of the model directory.
    pub fn file_path(&self, name: &str) -> (r: String)
        ensures
            r@ == joined_path(self.spec_model_dir(), name@),
    {
        join_path(self.model_dir.as_str(), name)
    }

    /// Whether the runtime library is among the files `present`.
    pub fn has_ort_dll(&self, present: &Vec<String>) -> (r: bool)
        ensures
            r == listed(present@, ORT_DLL_NAME@),
    {
        is_listed(present, ORT_DLL_NAME)
    }

    /// Whether every model file is among the files `present`.
    pub fn is_complete(&self, present: &Vec<String>) -> (r: bool)
        ensures
            r == forall|k: int|
                0 <= k < model_file_names().len() ==> listed(present@, #[trigger] model_file_names()[k]),
    {
        let names = model_files();
        let mut i: usize = 0;
        while i < names.len()
            invariant
                names@.map_values(|s: &str| s@) == model_file_names(),
                i <= names@.len(),
                forall|k: int| 0 <= k < i ==> listed(present@, #[trigger] model_file_names()[k]),
            decreases names@.len() - i,
        {
            assert(names@.map_values(|s: &str| s@)[i as int] == names@[i as int]@);
            if !is_listed(present, names[i]) {
                return false;
            }
            i = i + 1;
        }
        true
    }

    /// Whether the model files and the runtime library are all present.
    pub fn is_fully_complete(&self, present: &Vec<String>) -> (r: bool)
        ensures
            r == ((forall|k: int|
                0 <= k < model_file_names().len() ==> listed(present@, #[trigger] model_file_names()[k]))
                && listed(present@, ORT_DLL_NAME@)),
    {
        self.is_complete(present) && self.has_ort_dll(present)
    }

    /// The model files not among the files `present`, in download order.
    pub fn missing_files(&self, present: &Vec<String>) -> (r: Vec<&'static str>)
        ensures
            r@.map_values(|s: &str| s@) == model_file_names().filter(|n: Seq<char>| !listed(present@, n)),
    {
        let names = model_files();
        let mut out: Vec<&'static str> = Vec::new();
        let mut i: usize = 0;
        while i < names.len()
            invariant
                names@.map_values(|s: &str| s@) == model_file_names(),
                i <= names@.len(),
                out@.map_values(|s: &str| s@) == model_file_names().subrange(0, i as int).filter(
                    |n: Seq<char>| !listed(present@, n),
                ),
            decreases names@.len() - i,
        {
            let ghost pre = model_file_names().subrange(0, i as int);
            let ghost next = model_file_names().subrange(0, i + 1);
            assert(next.drop_last() =~= pre);
            assert(names@.map_values(|s: &str| s@)[i as int] == names@[i as int]@);
            reveal(Seq::filter);
            let ghost o0 = out@;
            if !is_listed(present, names[i]) {
                out.push(names[i]);
                assert(out@.map_values(|s: &str| s@) =~= o0.map_values(|s: &str| s@).push(names@[i as int]@));
            } else {
                assert(out@ == o0);
            }
            i = i + 1;
        }
        assert(model_file_names().subrange(0, i as int) =~= model_file_names());
        out
    }
}

pub const KB: u64 = 1024;

pub const MB: u64 = 1024 * 1024;

pub const GB: u64 = 1024 * 1024 * 1024;

/// `bytes * 10 / unit`, rounded to the nearest integer, ties to even.
pub open spec fn tenths(bytes: int, unit: int) -> int {
    let q = bytes * 10 / unit;
    let r = bytes * 10 % unit;
    if 2 * r > unit || (2 * r == unit && q % 2 == 1) {
        q + 1
    } else {
        q
    }
}

/// `v / 10` as a decimal with one fractional digit.
pub open spec fn one_decimal(v: nat) -> Seq<char> {
    decimal_digits(v / 10) + seq!['.'] + decimal_digits(v % 10)
}

/// A byte count for people: `N B` below 1024, else one decimal of KB, MB or
/// GB (powers of 1024), rounded to nearest with ties to even.
pub open spec fn bytes_text(bytes: u64) -> Seq<char> {
    if bytes >= GB {
        one_decimal(tenths(bytes as int, GB as int) as nat) + " GB"@
    } else if bytes >= MB {
        one_decimal(tenths(bytes as int, MB as int) as nat) + " MB"@
    } else if bytes >= KB {
        one_decimal(tenths(bytes as int, KB as int) as nat) + " KB"@
    } else {
        decimal_digits(bytes as nat) + " B"@
    }
}

fn push_tenths(out: &mut Vec<char>, bytes: u64, unit: u64)
    requires
        unit >= 1024,
    ensures
        final(out)@ == old(out)@ + one_decimal(tenths(bytes as int, unit as int) as nat),
{
    let x: u128 = bytes as u128 * 10;
    let q: u128 = x / unit as u128;
    let r: u128 = x % unit as u128;
    let v: u128 = if 2 * r > unit as u128 || (2 * r == unit as u128 && q % 2 == 1) {
        q + 1
    } else {
        q
    };
    proof {
        let xi = bytes as int * 10;
        let ui = unit as int;
        vstd::arithmetic::div_mod::lemma_fundamental_div_mod(xi, ui);
        assert(q * ui <= xi);
        assert(q * 1024 <= q * ui) by (nonlinear_arith)
            requires
                ui >= 1024,
                q >= 0,
        ;
        assert(v <= 0xffff_ffff_ffff_ffff);
        assert(v == tenths(bytes as int, unit as int));
    }
    let v: u64 = v as u64;
    push_decimal(out, v / 10);
    out.push('.');
    push_decimal(out, v % 10);
}

/// A byte count for people; see `bytes_text`.
pub fn format_bytes(bytes: u64) -> (r: String)
    ensures
        r@ == bytes_text(bytes),
{
    let mut out: Vec<char> = Vec::new();
    if bytes >= GB {
        push_tenths(&mut out, bytes, GB);
        push_str(&mut out, " GB");
    } else if bytes >= MB {
        push_tenths(&mut out, bytes, MB);
        push_str(&mut out, " MB");
    } else if bytes >= KB {
        push_tenths(&mut out, bytes, KB);
        push_str(&mut out, " KB");
    } else {
        push_decimal(&mut out, bytes);
        push_str(&mut out, " B");
    }
    string_of(&out)
}

} // verus!
