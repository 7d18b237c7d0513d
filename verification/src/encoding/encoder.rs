//! Encoders that turn a stream of values into the bytes of a page column.

use vstd::prelude::*;

use crate::common::enums::{TSDataType, TSEncoding};
use crate::encoding::ts2diff::{
    block_bytes, block_values, lemma_ts2diff_concat, lemma_ts2diff_single_block, push_block,
    ts2diff_bytes,
};
use crate::error::{TsFileError, TsFileResult};
use crate::utils::byte_order::be_bytes_u64;
use crate::utils::read_write_for_encoding::{varint_bytes, ReadWriteForEncodingUtils};
use crate::utils::read_write_io_utils::{Binary, ReadWriteIOUtils};

verus! {

/// A value handed to an encoder.
#[derive(Debug, Clone)]
pub enum EncodableValue {
    /// A boolean.
    Boolean(bool),
    /// A 32-bit integer.
    Int32(i32),
    /// A 64-bit integer.
    Int64(i64),
    /// A byte string.
    Binary(Binary),
}

/// The abstract form of an encodable value.
pub enum ValueView {
    /// A boolean.
    Boolean(bool),
    /// A 32-bit integer.
    Int32(i32),
    /// A 64-bit integer.
    Int64(i64),
    /// A byte string.
    Binary(Seq<u8>),
}

impl View for EncodableValue {
    type V = ValueView;

    open spec fn view(&self) -> ValueView {
        match self {
            EncodableValue::Boolean(b) => ValueView::Boolean(*b),
            EncodableValue::Int32(v) => ValueView::Int32(*v),
            EncodableValue::Int64(v) => ValueView::Int64(*v),
            EncodableValue::Binary(b) => ValueView::Binary(b@),
        }
    }
}

/// The bytes of one value in the plain encoding: a boolean as one byte, a 32-bit
/// integer as a signed varint, a 64-bit integer as eight big-endian bytes, a byte string
/// as its length (signed varint) and its bytes.
pub open spec fn plain_bytes(v: ValueView) -> Seq<u8> {
    match v {
        ValueView::Boolean(b) => seq![if b { 1u8 } else { 0u8 }],
        ValueView::Int32(x) => varint_bytes(x),
        ValueView::Int64(x) => be_bytes_u64(x as u64),
        ValueView::Binary(s) => varint_bytes(s.len() as i32) + s,
    }
}

/// The plain encoding of a sequence of values.
pub open spec fn plain_concat(vs: Seq<ValueView>) -> Seq<u8>
    decreases vs.len(),
{
    if vs.len() == 0 {
        Seq::empty()
    } else {
        plain_concat(vs.drop_last()) + plain_bytes(vs.last())
    }
}

/// The 64-bit integers of a sequence of values (other values count as 0).
pub open spec fn longs(vs: Seq<ValueView>) -> Seq<i64> {
    Seq::new(
        vs.len(),
        |i: int|
            match vs[i] {
                ValueView::Int64(x) => x,
                _ => 0,
            },
    )
}

/// Which encoding an encoder applies.
#[derive(Debug, Clone, Copy, PartialEq, Eq, Structural)]
pub enum EncoderKind {
    /// Values as they are.
    Plain,
    /// Second-order differences of 64-bit integers.
    Ts2diffLong,
    /// A combination of type and encoding that this library does not encode.
    Unsupported,
}

/// The encoder for values of `data_type` in `encoding`.
pub open spec fn kind_for(data_type: TSDataType, encoding: TSEncoding) -> EncoderKind {
    if encoding == TSEncoding::Plain {
        EncoderKind::Plain
    } else if encoding == TSEncoding::Ts2diff && (data_type == TSDataType::Int64 || data_type
        == TSDataType::Timestamp) {
        EncoderKind::Ts2diffLong
    } else {
        EncoderKind::Unsupported
    }
}

/// Whether an encoder of `kind` takes `v`.
pub open spec fn accepts(kind: EncoderKind, v: ValueView) -> bool {
    match kind {
        EncoderKind::Plain => true,
        EncoderKind::Ts2diffLong => v is Int64,
        EncoderKind::Unsupported => false,
    }
}

/// The bytes that an encoder of `kind` produces for `vs` once flushed.
pub open spec fn encoded(kind: EncoderKind, vs: Seq<ValueView>) -> Seq<u8> {
    match kind {
        EncoderKind::Plain => plain_concat(vs),
        EncoderKind::Ts2diffLong => ts2diff_bytes(longs(vs)),
        EncoderKind::Unsupported => Seq::empty(),
    }
}

/// The bytes that an encoder of `kind` has written for `vs` before being flushed: all of
/// them for the plain encoding, the complete blocks for differences.
pub open spec fn emitted_for(kind: EncoderKind, vs: Seq<ValueView>) -> Seq<u8> {
    match kind {
        EncoderKind::Plain => plain_concat(vs),
        EncoderKind::Ts2diffLong => ts2diff_bytes(
            longs(vs.take(vs.len() - (vs.len() as int) % (block_values() as int))),
        ),
        EncoderKind::Unsupported => Seq::empty(),
    }
}

/// The abstract state of an encoder: its kind, the values fed to it since it was last
/// flushed or reset, and the bytes it has written for them so far.
pub struct EncoderView {
    /// The encoding applied.
    pub kind: EncoderKind,
    /// The values taken since the last flush or reset.
    pub fed: Seq<ValueView>,
    /// The bytes written for them so far.
    pub emitted: Seq<u8>,
}

/// An encoder of one column of a page.
pub struct Encoder {
    kind: EncoderKind,
    pending: Vec<i64>,
    fed: Ghost<Seq<ValueView>>,
    emitted: Ghost<Seq<u8>>,
}

impl View for Encoder {
    type V = EncoderView;

    closed spec fn view(&self) -> EncoderView {
        EncoderView { kind: self.kind, fed: self.fed@, emitted: self.emitted@ }
    }
}

/// Creates the encoder for values of `data_type` in `encoding`.
pub fn create_encoder(data_type: TSDataType, encoding: TSEncoding) -> (e: Encoder)
    ensures
        e.wf(),
        e@.kind == kind_for(data_type, encoding),
        e@.fed == Seq::<ValueView>::empty(),
        e@.emitted == Seq::<u8>::empty(),
{
    let kind = match encoding {
        TSEncoding::Plain => EncoderKind::Plain,
        TSEncoding::Ts2diff => match data_type {
            TSDataType::Int64 => EncoderKind::Ts2diffLong,
            TSDataType::Timestamp => EncoderKind::Ts2diffLong,
            _ => EncoderKind::Unsupported,
        },
        _ => EncoderKind::Unsupported,
    };
    let e = Encoder {
        kind,
        pending: Vec::new(),
        fed: Ghost(Seq::empty()),
        emitted: Ghost(Seq::empty()),
    };
    proof {
        assert(plain_concat(Seq::<ValueView>::empty()) == Seq::<u8>::empty());
        assert(Seq::<ValueView>::empty().take(0) =~= Seq::<ValueView>::empty());
        assert(longs(Seq::<ValueView>::empty()) =~= Seq::<i64>::empty());
        assert(ts2diff_bytes(Seq::<i64>::empty()) == Seq::<u8>::empty());
        assert(longs(Seq::<ValueView>::empty()) =~= longs(Seq::<ValueView>::empty().take(0))
            + Seq::<i64>::empty());
    }
    e
}

impl Encoder {
    /// Whether the bytes written are those of the complete blocks of the values fed.
    pub closed spec fn wf(self) -> bool {
        match self.kind {
            EncoderKind::Plain => {
                &&& self.emitted@ == plain_concat(self.fed@)
                &&& self.pending@.len() == 0
            },
            EncoderKind::Ts2diffLong => {
                let n = self.fed@.len() - self.pending@.len();
                &&& forall|i: int| 0 <= i < self.fed@.len() ==> #[trigger] self.fed@[i] is Int64
                &&& n >= 0
                &&& n % (block_values() as int) == 0
                &&& self.pending@.len() < block_values()
                &&& longs(self.fed@) == longs(self.fed@.take(n)) + self.pending@
                &&& self.emitted@ == ts2diff_bytes(longs(self.fed@.take(n)))
            },
            EncoderKind::Unsupported => {
                &&& self.fed@.len() == 0
                &&& self.emitted@.len() == 0
            },
        }
    }

    /// What has been written is the start of what a flush completes.
    pub proof fn lemma_emitted_is_prefix(self)
        requires
            self.wf(),
        ensures
            self@.emitted == emitted_for(self@.kind, self@.fed),
            self@.emitted.len() <= encoded(self@.kind, self@.fed).len(),
            encoded(self@.kind, self@.fed).take(self@.emitted.len() as int) == self@.emitted,
    {
        match self.kind {
            EncoderKind::Plain => {
                assert(encoded(self@.kind, self@.fed).take(self@.emitted.len() as int)
                    =~= self@.emitted);
            },
            EncoderKind::Ts2diffLong => {
                let n = self.fed@.len() - self.pending@.len();
                assert(n == self.fed@.len() - self.fed@.len() % 129) by (nonlinear_arith)
                    requires
                        n == self.fed@.len() - self.pending@.len(),
                        n >= 0,
                        n % 129 == 0,
                        self.pending@.len() < 129,
                ;
                lemma_ts2diff_concat(longs(self.fed@.take(n)), self.pending@);
                assert(encoded(self@.kind, self@.fed).take(self@.emitted.len() as int)
                    =~= self@.emitted);
            },
            EncoderKind::Unsupported => {
                assert(self@.emitted =~= Seq::<u8>::empty());
                assert(self@.emitted =~= emitted_for(self@.kind, self@.fed));
                assert(encoded(self@.kind, self@.fed).take(0) =~= Seq::<u8>::empty());
            },
        }
    }

    /// Encodes `v` into `out`. A value that the encoding does not take is an
    /// `EncodingError` and changes nothing.
    pub fn encode_value(&mut self, v: EncodableValue, out: &mut Vec<u8>) -> (r: TsFileResult<()>)
        requires
            old(self).wf(),
        ensures
            final(self).wf(),
            final(self)@.kind == old(self)@.kind,
            accepts(old(self)@.kind, v@) ==> {
                &&& r is Ok
                &&& final(self)@.fed == old(self)@.fed.push(v@)
                &&& old(self)@.emitted.len() <= final(self)@.emitted.len()
                &&& final(self)@.emitted.take(old(self)@.emitted.len() as int) == old(
                    self,
                )@.emitted
                &&& final(out)@ == old(out)@ + final(self)@.emitted.skip(
                    old(self)@.emitted.len() as int,
                )
            },
            !accepts(old(self)@.kind, v@) ==> {
                &&& r matches Err(TsFileError::EncodingError(_))
                &&& final(self)@ == old(self)@
                &&& final(out)@ == old(out)@
            },
    {
        match self.kind {
            EncoderKind::Plain => {
                let ghost before = out@;
                let ghost vv = v@;
                match v {
                    EncodableValue::Boolean(b) => {
                        let _ = ReadWriteIOUtils::write_bool(b, out);
                    },
                    EncodableValue::Int32(x) => {
                        let _ = ReadWriteForEncodingUtils::write_var_int(x, out);
                    },
                    EncodableValue::Int64(x) => {
                        let _ = ReadWriteIOUtils::write_i64(x, out);
                    },
                    EncodableValue::Binary(b) => {
                        let _ = ReadWriteForEncodingUtils::write_var_int(b.len() as i32, out);
                        let _ = ReadWriteIOUtils::write_bytes(b.as_bytes(), out);
                    },
                }
                proof {
                    assert(out@ =~= before + plain_bytes(vv));
                    let nf = self.fed@.push(vv);
                    assert(nf.drop_last() =~= self.fed@);
                    let ne = self.emitted@ + plain_bytes(vv);
                    assert(ne.take(self.emitted@.len() as int) =~= self.emitted@);
                    assert(ne.skip(self.emitted@.len() as int) =~= plain_bytes(vv));
                }
                self.fed = Ghost(self.fed@.push(vv));
                self.emitted = Ghost(self.emitted@ + plain_bytes(vv));
                Ok(())
            },
            EncoderKind::Ts2diffLong => {
                match v {
                    EncodableValue::Int64(x) => {
                        self.encode_long(x, out);
                        Ok(())
                    },
                    _ => Err(
                        TsFileError::EncodingError(
                            "TS_2DIFF takes 64-bit integer values only".to_string(),
                        ),
                    ),
                }
            },
            EncoderKind::Unsupported => Err(
                TsFileError::EncodingError("Unsupported encoding for this data type".to_string()),
            ),
        }
    }

    fn encode_long(&mut self, x: i64, out: &mut Vec<u8>)
        requires
            old(self).wf(),
            old(self)@.kind == EncoderKind::Ts2diffLong,
        ensures
            final(self).wf(),
            final(self)@.kind == old(self)@.kind,
            final(self)@.fed == old(self)@.fed.push(ValueView::Int64(x)),
            old(self)@.emitted.len() <= final(self)@.emitted.len(),
            final(self)@.emitted.take(old(self)@.emitted.len() as int) == old(self)@.emitted,
            final(out)@ == old(out)@ + final(self)@.emitted.skip(old(self)@.emitted.len() as int),
    {
        let ghost old_fed = self.fed@;
        let ghost n = old_fed.len() - self.pending@.len();
        let ghost nf = old_fed.push(ValueView::Int64(x));
        self.pending.push(x);
        proof {
            assert(nf.take(n) =~= old_fed.take(n));
            assert(longs(nf) =~= longs(old_fed) + seq![x]);
            assert(longs(nf) =~= longs(nf.take(n)) + self.pending@);
            assert forall|i: int| 0 <= i < nf.len() implies #[trigger] nf[i] is Int64 by {
                if i < old_fed.len() {
                    assert(old_fed[i] is Int64);
                }
            }
        }
        if self.pending.len() == 129 {
            let ghost before = out@;
            push_block(&self.pending, out);
            proof {
                let full = longs(nf.take(n)) + self.pending@;
                lemma_ts2diff_concat(longs(nf.take(n)), self.pending@);
                lemma_ts2diff_single_block(self.pending@);
                assert(nf.take(nf.len() as int) =~= nf);
                assert(longs(nf.take(nf.len() as int)) =~= full);
                let ne = self.emitted@ + block_bytes(self.pending@);
                assert(ne =~= ts2diff_bytes(full));
                assert(ne.take(self.emitted@.len() as int) =~= self.emitted@);
                assert(out@ =~= before + ne.skip(self.emitted@.len() as int));
            }
            self.emitted = Ghost(self.emitted@ + block_bytes(self.pending@));
            self.pending = Vec::new();
            self.fed = Ghost(nf);
        } else {
            proof {
                assert(self.emitted@.take(self.emitted@.len() as int) =~= self.emitted@);
                assert(self.emitted@.skip(self.emitted@.len() as int) =~= Seq::<u8>::empty());
                assert(out@ =~= old(out)@ + self.emitted@.skip(self.emitted@.len() as int));
            }
            self.fed = Ghost(nf);
        }
    }

    /// Encodes the 64-bit integer `x` into `out`.
    pub fn encode_i64(&mut self, x: i64, out: &mut Vec<u8>) -> (r: TsFileResult<()>)
        requires
            old(self).wf(),
        ensures
            final(self).wf(),
            final(self)@.kind == old(self)@.kind,
            accepts(old(self)@.kind, ValueView::Int64(x)) ==> {
                &&& r is Ok
                &&& final(self)@.fed == old(self)@.fed.push(ValueView::Int64(x))
                &&& old(self)@.emitted.len() <= final(self)@.emitted.len()
                &&& final(self)@.emitted.take(old(self)@.emitted.len() as int) == old(
                    self,
                )@.emitted
                &&& final(out)@ == old(out)@ + final(self)@.emitted.skip(
                    old(self)@.emitted.len() as int,
                )
            },
            !accepts(old(self)@.kind, ValueView::Int64(x)) ==> {
                &&& r matches Err(TsFileError::EncodingError(_))
                &&& final(self)@ == old(self)@
                &&& final(out)@ == old(out)@
            },
    {
        self.encode_value(EncodableValue::Int64(x), out)
    }

    /// Writes what the encoder still holds, so that `out` gains the rest of the encoding
    /// of the values fed; the encoder then starts afresh.
    pub fn flush(&mut self, out: &mut Vec<u8>) -> (r: TsFileResult<()>)
        requires
            old(self).wf(),
        ensures
            final(self).wf(),
            r is Ok,
            final(out)@ == old(out)@ + encoded(old(self)@.kind, old(self)@.fed).skip(
                old(self)@.emitted.len() as int,
            ),
            final(self)@.kind == old(self)@.kind,
            final(self)@.fed == Seq::<ValueView>::empty(),
            final(self)@.emitted == Seq::<u8>::empty(),
    {
        proof {
            self.lemma_emitted_is_prefix();
        }
        match self.kind {
            EncoderKind::Ts2diffLong => {
                if self.pending.len() > 0 {
                    let ghost before = out@;
                    push_block(&self.pending, out);
                    proof {
                        let n = self.fed@.len() - self.pending@.len();
                        lemma_ts2diff_concat(longs(self.fed@.take(n)), self.pending@);
                        lemma_ts2diff_single_block(self.pending@);
                        let all = encoded(self.kind, self.fed@);
                        assert(all =~= self.emitted@ + block_bytes(self.pending@));
                        assert(all.skip(self.emitted@.len() as int) =~= block_bytes(
                            self.pending@,
                        ));
                    }
                } else {
                    proof {
                        let n = self.fed@.len() - self.pending@.len();
                        assert(self.fed@.take(n) =~= self.fed@);
                        assert(encoded(self.kind, self.fed@).skip(self.emitted@.len() as int)
                            =~= Seq::<u8>::empty());
                    }
                }
            },
            _ => {
                proof {
                    assert(encoded(self.kind, self.fed@).skip(self.emitted@.len() as int)
                        =~= Seq::<u8>::empty());
                }
            },
        }
        self.pending = Vec::new();
        self.fed = Ghost(Seq::empty());
        self.emitted = Ghost(Seq::empty());
        proof {
            assert(plain_concat(Seq::<ValueView>::empty()) == Seq::<u8>::empty());
            assert(Seq::<ValueView>::empty().take(0) =~= Seq::<ValueView>::empty());
            assert(longs(Seq::<ValueView>::empty()) =~= Seq::<i64>::empty());
            assert(ts2diff_bytes(Seq::<i64>::empty()) == Seq::<u8>::empty());
            assert(longs(Seq::<ValueView>::empty()) =~= longs(Seq::<ValueView>::empty().take(0))
                + Seq::<i64>::empty());
        }
        Ok(())
    }

    /// Forgets what the encoder holds and starts afresh.
    pub fn reset(&mut self)
        ensures
            final(self).wf(),
            final(self)@.kind == old(self)@.kind,
            final(self)@.fed == Seq::<ValueView>::empty(),
            final(self)@.emitted == Seq::<u8>::empty(),
    {
        self.pending = Vec::new();
        self.fed = Ghost(Seq::empty());
        self.emitted = Ghost(Seq::empty());
        proof {
            assert(plain_concat(Seq::<ValueView>::empty()) == Seq::<u8>::empty());
            assert(Seq::<ValueView>::empty().take(0) =~= Seq::<ValueView>::empty());
            assert(longs(Seq::<ValueView>::empty()) =~= Seq::<i64>::empty());
            assert(ts2diff_bytes(Seq::<i64>::empty()) == Seq::<u8>::empty());
            assert(longs(Seq::<ValueView>::empty()) =~= longs(Seq::<ValueView>::empty().take(0))
                + Seq::<i64>::empty());
        }
    }
}

} // verus!
