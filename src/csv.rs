//! The CSV rows that record each finished job: the job's name, then one field
//! per run in run order, holding the run's duration in seconds, or nothing
//! where the run failed.
use vstd::prelude::*;

verus! {

pub const NANOS_PER_SEC: u64 = 1_000_000_000;

/// The ASCII digit for the last decimal digit of `n`.
pub open spec fn digit(n: nat) -> u8 {
    (48 + n % 10) as u8
}

/// The decimal numeral of `n`, without leading zeros.
pub open spec fn decimal(n: nat) -> Seq<u8>
    decreases n,
{
    if n < 10 {
        seq![digit(n)]
    } else {
        decimal(n / 10).push(digit(n))
    }
}

/// The last `width` decimal digits of `n`, with leading zeros.
pub open spec fn padded(n: nat, width: nat) -> Seq<u8>
    decreases width,
{
    if width == 0 {
        Seq::empty()
    } else {
        padded(n / 10, (width - 1) as nat).push(digit(n))
    }
}

/// The `width` digits of the fraction `f`, without its trailing zeros.
pub open spec fn fraction(f: nat, width: nat) -> Seq<u8>
    decreases width,
{
    if width > 0 && f % 10 == 0 {
        fraction(f / 10, (width - 1) as nat)
    } else {
        padded(f, width)
    }
}

/// A duration of `nanos` nanoseconds as a decimal number of seconds: the
/// whole seconds, then, unless the duration is a whole number of seconds, a
/// point and the fraction without trailing zeros.
pub open spec fn seconds_text(nanos: u64) -> Seq<u8> {
    let secs = (nanos / NANOS_PER_SEC) as nat;
    let frac = (nanos % NANOS_PER_SEC) as nat;
    if frac == 0 {
        decimal(secs)
    } else {
        decimal(secs) + seq![46u8] + fraction(frac, 9)
    }
}

/// The field of one run, with the comma before it.
pub open spec fn run_field(run: Option<u64>) -> Seq<u8> {
    match run {
        Some(d) => seq![44u8] + seconds_text(d),
        None => seq![44u8],
    }
}

/// The fields of `runs`, in order.
pub open spec fn run_fields(runs: Seq<Option<u64>>) -> Seq<u8>
    decreases runs.len(),
{
    if runs.len() == 0 {
        Seq::empty()
    } else {
        run_fields(runs.drop_last()) + run_field(runs.last())
    }
}

/// The line that records a finished job.
pub open spec fn csv_row(name: Seq<u8>, runs: Seq<Option<u64>>) -> Seq<u8> {
    name + run_fields(runs) + seq![10u8]
}

/// How many times the byte `b` occurs in `s`.
pub open spec fn count_byte(s: Seq<u8>, b: u8) -> nat
    decreases s.len(),
{
    if s.len() == 0 {
        0
    } else {
        count_byte(s.drop_last(), b) + if s.last() == b {
            1nat
        } else {
            0nat
        }
    }
}

proof fn lemma_count_concat(a: Seq<u8>, b: Seq<u8>, x: u8)
    ensures
        count_byte(a + b, x) == count_byte(a, x) + count_byte(b, x),
    decreases b.len(),
{
    if b.len() == 0 {
        assert(a + b =~= a);
    } else {
        assert((a + b).drop_last() =~= a + b.drop_last());
        lemma_count_concat(a, b.drop_last(), x);
    }
}

proof fn lemma_no_comma(s: Seq<u8>)
    requires
        forall|i: int| 0 <= i < s.len() ==> #[trigger] s[i] != 44u8,
    ensures
        count_byte(s, 44u8) == 0,
    decreases s.len(),
{
    if s.len() > 0 {
        assert forall|i: int| 0 <= i < s.drop_last().len() implies #[trigger] s.drop_last()[i] != 44u8 by {
            assert(s.drop_last()[i] == s[i]);
        }
        lemma_no_comma(s.drop_last());
    }
}

proof fn lemma_decimal_digits(n: nat)
    ensures
        forall|i: int| 0 <= i < decimal(n).len() ==> 48 <= #[trigger] decimal(n)[i] <= 57,
    decreases n,
{
    if n < 10 {
        assert(decimal(n)[0] == digit(n));
    } else {
        lemma_decimal_digits(n / 10);
        assert forall|i: int| 0 <= i < decimal(n).len() implies 48 <= #[trigger] decimal(n)[i] <= 57 by {
            if i < decimal(n / 10).len() {
                assert(decimal(n)[i] == decimal(n / 10)[i]);
            }
        }
    }
}

proof fn lemma_padded_digits(n: nat, width: nat)
    ensures
        forall|i: int| 0 <= i < padded(n, width).len() ==> 48 <= #[trigger] padded(n, width)[i] <= 57,
    decreases width,
{
    if width > 0 {
        lemma_padded_digits(n / 10, (width - 1) as nat);
        assert forall|i: int| 0 <= i < padded(n, width).len() implies 48 <= #[trigger] padded(n, width)[i] <= 57 by {
            if i < padded(n / 10, (width - 1) as nat).len() {
                assert(padded(n, width)[i] == padded(n / 10, (width - 1) as nat)[i]);
            }
        }
    }
}

proof fn lemma_fraction_digits(f: nat, width: nat)
    ensures
        forall|i: int| 0 <= i < fraction(f, width).len() ==> 48 <= #[trigger] fraction(f, width)[i] <= 57,
    decreases width,
{
    if width > 0 && f % 10 == 0 {
        lemma_fraction_digits(f / 10, (width - 1) as nat);
        assert(fraction(f, width) == fraction(f / 10, (width - 1) as nat));
    } else {
        assert(fraction(f, width) == padded(f, width));
        lemma_padded_digits(f, width);
    }
}

proof fn lemma_seconds_no_comma(nanos: u64)
    ensures
        count_byte(seconds_text(nanos), 44u8) == 0,
{
    let secs = (nanos / NANOS_PER_SEC) as nat;
    let frac = (nanos % NANOS_PER_SEC) as nat;
    lemma_decimal_digits(secs);
    lemma_fraction_digits(frac, 9);
    let t = seconds_text(nanos);
    assert forall|i: int| 0 <= i < t.len() implies #[trigger] t[i] != 44u8 by {
        if frac != 0 {
            let d = decimal(secs);
            if i < d.len() {
                assert(t[i] == d[i]);
            } else if i > d.len() {
                assert(t[i] == fraction(frac, 9)[i - d.len() - 1]);
            }
        }
    }
    lemma_no_comma(t);
}

proof fn lemma_run_fields_commas(runs: Seq<Option<u64>>)
    ensures
        count_byte(run_fields(runs), 44u8) == runs.len(),
    decreases runs.len(),
{
    if runs.len() > 0 {
        lemma_run_fields_commas(runs.drop_last());
        let f = run_field(runs.last());
        lemma_count_concat(run_fields(runs.drop_last()), f, 44u8);
        match runs.last() {
            Some(d) => {
                lemma_seconds_no_comma(d);
                lemma_count_concat(seq![44u8], seconds_text(d), 44u8);
                assert(seq![44u8].drop_last() =~= Seq::<u8>::empty());
                assert(count_byte(Seq::<u8>::empty(), 44u8) == 0);
                assert(count_byte(seq![44u8], 44u8) == 1);
            },
            None => {
                assert(seq![44u8].drop_last() =~= Seq::<u8>::empty());
                assert(count_byte(Seq::<u8>::empty(), 44u8) == 0);
                assert(count_byte(seq![44u8], 44u8) == 1);
            },
        }
    }
}

/// A job's row holds one comma-separated field per run after its name: where
/// the name holds no comma, the row holds exactly as many commas as there are
/// runs, and it ends in its single newline.
pub proof fn lemma_row_has_one_field_per_run(name: Seq<u8>, runs: Seq<Option<u64>>)
    requires
        count_byte(name, 44u8) == 0,
    ensures
        count_byte(csv_row(name, runs), 44u8) == runs.len(),
        count_byte(csv_row(name, runs), 10u8) == count_byte(name, 10u8) + count_byte(run_fields(runs), 10u8) + 1,
        csv_row(name, runs).last() == 10u8,
{
    lemma_run_fields_commas(runs);
    lemma_count_concat(name, run_fields(runs), 44u8);
    lemma_count_concat(name + run_fields(runs), seq![10u8], 44u8);
    lemma_count_concat(name, run_fields(runs), 10u8);
    lemma_count_concat(name + run_fields(runs), seq![10u8], 10u8);
    assert(seq![10u8].drop_last() =~= Seq::<u8>::empty());
    assert(count_byte(Seq::<u8>::empty(), 10u8) == 0);
    assert(count_byte(Seq::<u8>::empty(), 44u8) == 0);
    assert(count_byte(seq![10u8], 10u8) == 1);
    assert(count_byte(seq![10u8], 44u8) == 0);
}

fn push_decimal(out: &mut Vec<u8>, n: u64)
    ensures
        final(out)@ == old(out)@ + decimal(n as nat),
    decreases n,
{
    if n >= 10 {
        push_decimal(out, n / 10);
    }
    out.push(48u8 + (n % 10) as u8);
}

fn push_padded(out: &mut Vec<u8>, n: u64, width: u32)
    ensures
        final(out)@ == old(out)@ + padded(n as nat, width as nat),
    decreases width,
{
    if width > 0 {
        push_padded(out, n / 10, width - 1);
        out.push(48u8 + (n % 10) as u8);
    } else {
        assert(old(out)@ + padded(n as nat, 0) =~= old(out)@);
    }
}

fn push_fraction(out: &mut Vec<u8>, frac: u64, digits: u32)
    ensures
        final(out)@ == old(out)@ + fraction(frac as nat, digits as nat),
{
    let mut f = frac;
    let mut width = digits;
    while width > 0 && f % 10 == 0
        invariant
            fraction(f as nat, width as nat) == fraction(frac as nat, digits as nat),
        decreases width,
    {
        f = f / 10;
        width = width - 1;
    }
    push_padded(out, f, width);
}

/// Appends the text of a duration of `nanos` nanoseconds, in seconds.
pub fn push_seconds(out: &mut Vec<u8>, nanos: u64)
    ensures
        final(out)@ == old(out)@ + seconds_text(nanos),
{
    let secs = nanos / NANOS_PER_SEC;
    let frac = nanos % NANOS_PER_SEC;
    push_decimal(out, secs);
    if frac != 0 {
        out.push(46u8);
        push_fraction(out, frac, 9);
    }
}

/// The CSV line that records a finished job named `name` whose runs ended as
/// `runs`, newline included.
pub fn csv_row_of(name: &[u8], runs: &[Option<u64>]) -> (r: Vec<u8>)
    ensures
        r@ == csv_row(name@, runs@),
{
    let mut out: Vec<u8> = Vec::new();
    let mut i: usize = 0;
    while i < name.len()
        invariant
            i <= name@.len(),
            out@ == name@.subrange(0, i as int),
        decreases name@.len() - i,
    {
        out.push(name[i]);
        i = i + 1;
    }
    assert(out@ =~= name@);
    let mut k: usize = 0;
    while k < runs.len()
        invariant
            k <= runs@.len(),
            out@ == name@ + run_fields(runs@.subrange(0, k as int)),
        decreases runs@.len() - k,
    {
        let ghost before = out@;
        out.push(44u8);
        match runs[k] {
            Some(d) => {
                push_seconds(&mut out, d);
            },
            None => {},
        }
        proof {
            let prefix = runs@.subrange(0, k as int + 1);
            assert(prefix.drop_last() =~= runs@.subrange(0, k as int));
            assert(out@ =~= before + run_field(runs@[k as int]));
        }
        k = k + 1;
    }
    assert(runs@.subrange(0, runs@.len() as int) =~= runs@);
    out.push(10u8);
    out
}

} // verus!
