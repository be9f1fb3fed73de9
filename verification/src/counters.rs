//! Counters of the `prometheus` crate, each entered in the crate's default registry when it is
//! made, which is where they are exported from.

use prometheus::{Counter, CounterVec, Opts};
use vstd::prelude::*;
use vstd::utf8::encode_utf8;

verus! {

/// An error of the `prometheus` crate.
#[verifier::external_type_specification]
#[verifier::external_body]
pub struct ExPrometheusError(prometheus::Error);

/// A `CounterVec` of the `prometheus` crate with a single label: a number for each value of the
/// label.
#[verifier::external_body]
pub struct LabelledCounter {
    inner: CounterVec,
}

/// A `Counter` of the `prometheus` crate: a single number.
#[verifier::external_body]
pub struct PlainCounter {
    inner: Counter,
}

/// What a labelled counter holds: slots, each with the label's value that it was opened for and
/// the number that is exported under it.
pub uninterp spec fn samples(counter: LabelledCounter) -> Map<u64, (Seq<char>, nat)>;

/// What a labelled counter is exported as: a list of its name alone, one of its help alone, one
/// of the names of its labels, and one of its constant labels, each name with its value behind.
pub uninterp spec fn labelled_text(counter: LabelledCounter) -> Seq<Seq<Seq<char>>>;

/// The number that a plain counter holds, as the only item.
pub uninterp spec fn number(counter: PlainCounter) -> Seq<nat>;

/// What a plain counter is exported as, in the same four lists.
pub uninterp spec fn plain_text(counter: PlainCounter) -> Seq<Seq<Seq<char>>>;

/// The hash of bytes by which the `prometheus` crate files a label's value: FNV-1a in 64 bits,
/// with the key that it has in every process.
pub open spec fn fnv(bytes: Seq<u8>) -> u64
    decreases bytes.len(),
{
    if bytes.len() == 0 {
        0xcbf2_9ce4_8422_2325
    } else {
        (((fnv(bytes.drop_last()) ^ (bytes.last() as u64)) * 0x100_0000_01b3)
            % 0x1_0000_0000_0000_0000) as u64
    }
}

/// The slot of a label's value: the hash of its UTF-8 bytes. Two values may share a slot.
pub open spec fn slot(value: Seq<char>) -> u64 {
    fnv(encode_utf8(value))
}

/// The number after one more event. The `prometheus` crate keeps it in floating point, which
/// tells whole numbers apart up to this bound and stays there.
pub open spec fn one_more(count: nat) -> nat {
    if count < 0x20_0000_0000_0000 {
        count + 1
    } else {
        count
    }
}

/// The samples after one more event under the label's value, whose slot is `at`: it is added to
/// whatever holds the slot, and opens the slot where nothing does.
pub open spec fn sample_added(
    before: Map<u64, (Seq<char>, nat)>,
    at: u64,
    value: Seq<char>,
) -> Map<u64, (Seq<char>, nat)> {
    if before.dom().contains(at) {
        before.insert(at, (before[at].0, one_more(before[at].1)))
    } else {
        before.insert(at, (value, 1))
    }
}

/// A counter's full name.
pub open spec fn full_name(namespace: Seq<char>, name: Seq<char>) -> Seq<char> {
    namespace + seq!['_'] + name
}

/// The four lists of a counter with a name, a help and labels, and without constant labels.
pub open spec fn described(
    name: Seq<char>,
    help: Seq<char>,
    labels: Seq<Seq<char>>,
) -> Seq<Seq<Seq<char>>> {
    seq![seq![name], seq![help], labels, Seq::empty()]
}

/// `register_counter_vec!` of the `prometheus` crate: a counter without samples, under the
/// namespace and the name with an underscore between them, with that one label and no constant
/// one, which the default registry then knows. Whether the registry takes it depends on what it
/// already knows; that it exports the counter from then on is left unsaid.
#[verifier::external_body]
pub(crate) fn register_labelled(namespace: &str, name: &str, help: &str, label: &str) -> (result: Result<
    LabelledCounter,
    prometheus::Error,
>)
    requires
        namespace@.len() > 0,
        name@.len() > 0,
    ensures
        result matches Ok(counter) ==> {
            &&& samples(counter) == Map::<u64, (Seq<char>, nat)>::empty()
            &&& labelled_text(counter) == described(
                full_name(namespace@, name@),
                help@,
                seq![label@],
            )
        },
{
    let opts = Opts::new(name, help).namespace(namespace);
    let inner = CounterVec::new(opts, &[label])?;
    prometheus::register(Box::new(inner.clone()))?;
    Ok(LabelledCounter { inner })
}

/// `register_counter!` of the `prometheus` crate: a counter at zero, under the namespace and the
/// name with an underscore between them, without labels of either kind, which the default registry
/// then knows. Whether the registry takes it depends on what it already knows; that it exports the
/// counter from then on is left unsaid.
#[verifier::external_body]
pub(crate) fn register_plain(namespace: &str, name: &str, help: &str) -> (result: Result<
    PlainCounter,
    prometheus::Error,
>)
    requires
        namespace@.len() > 0,
        name@.len() > 0,
    ensures
        result matches Ok(counter) ==> {
            &&& number(counter) == seq![0nat]
            &&& plain_text(counter) == described(
                full_name(namespace@, name@),
                help@,
                Seq::empty(),
            )
        },
{
    let inner = Counter::with_opts(Opts::new(name, help).namespace(namespace))?;
    prometheus::register(Box::new(inner.clone()))?;
    Ok(PlainCounter { inner })
}

/// `CounterVec::with_label_values` of the `prometheus` crate with `inc` on what it returns: one
/// more event under the label's value, in the slot that the crate's hash gives it.
#[verifier::external_body]
pub(crate) fn add_labelled(counter: &mut LabelledCounter, value: &str)
    ensures
        samples(*final(counter)) == sample_added(
            samples(*old(counter)),
            slot(value@),
            value@,
        ),
        labelled_text(*final(counter)) == labelled_text(*old(counter)),
{
    counter.inner.with_label_values(&[value]).inc();
}

/// `Counter::inc` of the `prometheus` crate: one more event.
#[verifier::external_body]
pub(crate) fn add_plain(counter: &mut PlainCounter)
    ensures
        number(*final(counter)) == seq![one_more(number(*old(counter))[0])],
        plain_text(*final(counter)) == plain_text(*old(counter)),
{
    counter.inner.inc();
}

proof fn lemma_product_tells_apart(first: u64, second: u64)
    by (bit_vector)
    requires
        first != second,
    ensures
        ((first * 0x100_0000_01b3) % 0x1_0000_0000_0000_0000) as u64 != ((second
            * 0x100_0000_01b3) % 0x1_0000_0000_0000_0000) as u64,
{
}

proof fn lemma_byte_keeps_apart(first: u64, second: u64, byte: u64)
    by (bit_vector)
    requires
        first != second,
    ensures
        first ^ byte != second ^ byte,
        byte ^ first != byte ^ second,
{
}

/// Bytes with different hashes keep different hashes where the same bytes follow both.
proof fn lemma_suffix_keeps_apart(first: Seq<u8>, second: Seq<u8>, suffix: Seq<u8>)
    requires
        fnv(first) != fnv(second),
    ensures
        fnv(first + suffix) != fnv(second + suffix),
    decreases suffix.len(),
{
    if suffix.len() == 0 {
        assert(first + suffix == first);
        assert(second + suffix == second);
    } else {
        let rest = suffix.drop_last();
        let byte = suffix.last() as u64;
        lemma_suffix_keeps_apart(first, second, rest);
        assert((first + suffix).drop_last() == first + rest);
        assert((second + suffix).drop_last() == second + rest);
        lemma_byte_keeps_apart(fnv(first + rest), fnv(second + rest), byte);
        lemma_product_tells_apart(fnv(first + rest) ^ byte, fnv(second + rest) ^ byte);
    }
}

/// Two values that differ in a single byte do not share a slot.
pub proof fn lemma_one_byte_apart(first: Seq<char>, second: Seq<char>, at: int)
    requires
        encode_utf8(first).len() == encode_utf8(second).len(),
        0 <= at < encode_utf8(first).len(),
        encode_utf8(first)[at] != encode_utf8(second)[at],
        forall|i: int|
            0 <= i < encode_utf8(first).len() && i != at ==> #[trigger] encode_utf8(first)[i]
                == encode_utf8(second)[i],
    ensures
        slot(first) != slot(second),
{
    let one = encode_utf8(first);
    let other = encode_utf8(second);
    let prefix = one.take(at);
    let suffix = one.skip(at + 1);
    assert(other.take(at) == prefix);
    assert(other.skip(at + 1) == suffix);
    assert(one == prefix.push(one[at]) + suffix);
    assert(other == prefix.push(other[at]) + suffix);
    assert(prefix.push(one[at]).drop_last() == prefix);
    assert(prefix.push(other[at]).drop_last() == prefix);
    lemma_byte_keeps_apart(one[at] as u64, other[at] as u64, fnv(prefix));
    lemma_product_tells_apart(
        fnv(prefix) ^ (one[at] as u64),
        fnv(prefix) ^ (other[at] as u64),
    );
    lemma_suffix_keeps_apart(prefix.push(one[at]), prefix.push(other[at]), suffix);
}

} // verus!
