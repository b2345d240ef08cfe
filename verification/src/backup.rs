//! Encrypted backup and restore of the wallet state.
//!
//! The archive is one binary blob: a self-describing header (format
//! version, cost parameters, salt, payload length), then a key-check tag,
//! then the encrypted payload. The key stream is derived from the password
//! by a memory-hard key-derivation function; the payload is the encoded
//! wallet followed by a checksum. Restore reports every failure uniformly
//! as `WrongPassword`, so an attacker learns nothing from which check
//! failed.
use vstd::prelude::*;
use vstd::string::StringSliceAdditionalSpecFns;

use vstd::bytes::{
    lemma_auto_spec_u64_to_from_le_bytes, spec_u64_from_le_bytes, spec_u64_to_le_bytes,
    u64_from_le_bytes, u64_to_le_bytes,
};

use crate::codec::{codec_fits, decode_wallet, encode_wallet, offline, wallet_like, wallet_words};
use crate::errors::Error;
use crate::model::bump;
use crate::wallet::Wallet;

verus! {

/// Default work factor exponent of the key derivation.
pub const DEFAULT_LOG_N: u8 = 17;

/// Default block size of the key derivation.
pub const DEFAULT_R: u32 = 8;

/// Default parallelism of the key derivation.
pub const DEFAULT_P: u32 = 1;

/// Magic number opening every archive.
pub const ARCHIVE_MAGIC: u64 = 0x6b62_7465_6c_6c_61_77;

/// Format version written into the header.
pub const ARCHIVE_VERSION: u64 = 1;

/// Tunable cost parameters of the key derivation.
#[derive(Debug, Clone, Copy, PartialEq, Eq, Structural)]
pub struct ScryptParams {
    /// Work factor exponent: the derivation uses 2^log_n iterations.
    pub log_n: u8,
    /// Block size factor.
    pub r: u32,
    /// Parallelism factor.
    pub p: u32,
}

impl ScryptParams {
    /// Cost parameters this library supports: within the derivation
    /// function's documented bounds, with room above the defaults.
    pub open spec fn valid(self) -> bool {
        &&& 1 <= self.log_n <= 20
        &&& 1 <= self.r <= 32
        &&& 1 <= self.p <= 16
    }

    /// Cost parameters, each defaulting when not given.
    pub fn new(log_n: Option<u8>, r: Option<u32>, p: Option<u32>) -> (s: ScryptParams)
        ensures
            s.log_n == match log_n {
                Some(x) => x,
                None => DEFAULT_LOG_N,
            },
            s.r == match r {
                Some(x) => x,
                None => DEFAULT_R,
            },
            s.p == match p {
                Some(x) => x,
                None => DEFAULT_P,
            },
    {
        ScryptParams {
            log_n: match log_n {
                Some(x) => x,
                None => DEFAULT_LOG_N,
            },
            r: match r {
                Some(x) => x,
                None => DEFAULT_R,
            },
            p: match p {
                Some(x) => x,
                None => DEFAULT_P,
            },
        }
    }
}

/// The bytes the key derivation produces for a password, salt, cost
/// parameters and output length. The derivation is a pure function of
/// these arguments, the same in every process and on every machine.
pub uninterp spec fn scrypt_stream(
    password: Seq<u8>,
    salt: Seq<u8>,
    log_n: u8,
    r: u32,
    p: u32,
    len: nat,
) -> Seq<u8>;

/// Relies on scrypt::scrypt (crate scrypt): the derived bytes are a pure
/// function of password, salt, cost parameters and output length, and the
/// call succeeds whenever the parameters meet the crate's documented
/// bounds and the output length is positive and within range.
#[verifier::external_body]
fn derive_stream(password: &[u8], salt: &[u8], log_n: u8, r: u32, p: u32, len: usize) -> (out:
    Option<Vec<u8>>)
    ensures
        out matches Some(v) ==> v@ == scrypt_stream(password@, salt@, log_n, r, p, len as nat)
            && v@.len() == len,
        (1 <= log_n <= 20 && 1 <= r <= 32 && 1 <= p <= 16 && 0 < len && len
            <= 0x0000_0010_0000_0000) ==> out is Some,
{
    let params = match scrypt::Params::new(log_n, r, p) {
        Ok(p) => p,
        Err(_) => return None,
    };
    let mut buf = vec![0u8; len];
    match scrypt::scrypt(password, salt, &params, &mut buf) {
        Ok(()) => Some(buf),
        Err(_) => None,
    }
}

/// The key stream actually used: the derivation's bytes, normalized to
/// the requested length (the derivation always fills exactly the requested
/// length; the normalization makes that length available to reasoning).
pub open spec fn key_stream(
    password: Seq<u8>,
    salt: Seq<u8>,
    log_n: u8,
    r: u32,
    p: u32,
    len: nat,
) -> Seq<u8> {
    let s = scrypt_stream(password, salt, log_n, r, p, len);
    Seq::new(
        len,
        |i: int|
            if i < s.len() {
                s[i]
            } else {
                0u8
            },
    )
}

/// Little-endian bytes of a word sequence.
pub open spec fn words_to_bytes(ws: Seq<u64>) -> Seq<u8>
    decreases ws.len(),
{
    if ws.len() == 0 {
        Seq::empty()
    } else {
        words_to_bytes(ws.drop_last()) + spec_u64_to_le_bytes(ws.last())
    }
}

/// Length of the byte form.
pub proof fn lemma_words_to_bytes_len(ws: Seq<u64>)
    ensures
        words_to_bytes(ws).len() == ws.len() * 8,
    decreases ws.len(),
{
    if ws.len() > 0 {
        lemma_words_to_bytes_len(ws.drop_last());
        lemma_auto_spec_u64_to_from_le_bytes();
        assert((ws.len() - 1) * 8 + 8 == ws.len() * 8) by (nonlinear_arith);
    }
}

/// One word's byte segment.
pub proof fn lemma_words_to_bytes_seg(ws: Seq<u64>, i: int)
    requires
        0 <= i < ws.len(),
    ensures
        words_to_bytes(ws).subrange(i * 8, (i + 1) * 8) == spec_u64_to_le_bytes(ws[i]),
    decreases ws.len(),
{
    lemma_words_to_bytes_len(ws);
    lemma_words_to_bytes_len(ws.drop_last());
    lemma_auto_spec_u64_to_from_le_bytes();
    assert(0 <= i * 8 && (i + 1) * 8 <= ws.len() * 8) by (nonlinear_arith)
        requires
            0 <= i < ws.len(),
    ;
    if i == ws.len() - 1 {
        assert(words_to_bytes(ws).subrange(i * 8, (i + 1) * 8) =~= spec_u64_to_le_bytes(ws[i]))
            by (nonlinear_arith)
            requires
                words_to_bytes(ws) == words_to_bytes(ws.drop_last()) + spec_u64_to_le_bytes(
                    ws.last(),
                ),
                words_to_bytes(ws.drop_last()).len() == i * 8,
                spec_u64_to_le_bytes(ws.last()).len() == 8,
                ws.last() == ws[i],
                words_to_bytes(ws).len() == (i + 1) * 8,
        ;
    } else {
        lemma_words_to_bytes_seg(ws.drop_last(), i);
        assert((i + 1) * 8 <= (ws.len() - 1) * 8) by (nonlinear_arith)
            requires
                0 <= i < ws.len() - 1,
        ;
        assert(words_to_bytes(ws).subrange(i * 8, (i + 1) * 8) =~= words_to_bytes(
            ws.drop_last(),
        ).subrange(i * 8, (i + 1) * 8));
        assert(ws.drop_last()[i] == ws[i]);
    }
}

/// Sum of the bytes, wrapping at the word size: the payload checksum.
pub open spec fn checksum(s: Seq<u8>) -> u64
    decreases s.len(),
{
    if s.len() == 0 {
        0u64
    } else {
        ((checksum(s.drop_last()) + s.last()) % 0x1_0000_0000_0000_0000) as u64
    }
}

/// Pointwise exclusive-or of two byte sequences of the first's length.
pub open spec fn xor_bytes(a: Seq<u8>, b: Seq<u8>) -> Seq<u8> {
    Seq::new(a.len(), |i: int| a[i] ^ b[i])
}

/// The exclusive-or cipher inverts itself.
pub proof fn lemma_xor_involution(a: Seq<u8>, b: Seq<u8>)
    requires
        a.len() <= b.len(),
    ensures
        xor_bytes(xor_bytes(a, b), b) =~= a,
{
    assert forall|i: int| 0 <= i < a.len() implies xor_bytes(xor_bytes(a, b), b)[i] == a[i] by {
        let x = a[i];
        let y = b[i];
        assert((x ^ y) ^ y == x) by (bit_vector);
    }
}

/// The archive bytes written for a wallet state under a password, salt and
/// cost parameters: header, key-check tag, encrypted payload.
pub open spec fn spec_archive(
    w: Wallet,
    pw: Seq<u8>,
    salt_a: u64,
    salt_b: u64,
    prm: ScryptParams,
) -> Seq<u8> {
    let payload = words_to_bytes(wallet_words(w));
    let plain = payload + spec_u64_to_le_bytes(checksum(payload));
    let salt = spec_u64_to_le_bytes(salt_a) + spec_u64_to_le_bytes(salt_b);
    let stream = key_stream(pw, salt, prm.log_n, prm.r, prm.p, (32 + plain.len()) as nat);
    words_to_bytes(
        seq![
            ARCHIVE_MAGIC,
            ARCHIVE_VERSION,
            prm.log_n as u64,
            prm.r as u64,
            prm.p as u64,
            salt_a,
            salt_b,
            plain.len() as u64,
        ],
    ) + stream.take(32) + xor_bytes(plain, stream.skip(32))
}

/// Encodes a word sequence as little-endian bytes.
#[verifier::loop_isolation(false)]
pub fn words_to_bytes_exec(ws: &Vec<u64>) -> (r: Vec<u8>)
    ensures
        r@ == words_to_bytes(ws@),
{
    let mut out: Vec<u8> = Vec::new();
    let mut i: usize = 0;
    while i < ws.len()
        invariant
            0 <= i <= ws@.len(),
            out@ == words_to_bytes(ws@.take(i as int)),
        decreases ws@.len() - i,
    {
        let mut b = u64_to_le_bytes(ws[i]);
        out.append(&mut b);
        proof {
            assert(ws@.take(i as int + 1).drop_last() =~= ws@.take(i as int));
            assert(ws@.take(i as int + 1).last() == ws@[i as int]);
        }
        i += 1;
    }
    proof {
        assert(ws@.take(ws@.len() as int) =~= ws@);
    }
    out
}

/// Reads a word sequence back from little-endian bytes.
#[verifier::loop_isolation(false)]
pub fn bytes_to_words_exec(b: &Vec<u8>, start: usize, n_words: usize) -> (r: Option<Vec<u64>>)
    ensures
        (start + n_words * 8 <= b@.len()) ==> (r matches Some(v) && v@.len() == n_words && forall|
            i: int,
        |
            0 <= i < n_words ==> v@[i] == spec_u64_from_le_bytes(
                b@.subrange(start + i * 8, start + (i + 1) * 8),
            )),
{
    let bl = b.len();
    if n_words > (usize::MAX - start) / 8 {
        proof {
            if start + n_words * 8 <= b@.len() {
                assert(n_words * 8 <= usize::MAX - start);
                vstd::arithmetic::div_mod::lemma_fundamental_div_mod(
                    (usize::MAX - start) as int,
                    8,
                );
                vstd::arithmetic::div_mod::lemma_mod_bound((usize::MAX - start) as int, 8);
            }
        }
        return None;
    }
    proof {
        vstd::arithmetic::div_mod::lemma_fundamental_div_mod((usize::MAX - start) as int, 8);
        vstd::arithmetic::div_mod::lemma_mod_bound((usize::MAX - start) as int, 8);
        assert(n_words * 8 <= usize::MAX - start);
    }
    if start + n_words * 8 > bl {
        return None;
    }
    let mut out: Vec<u64> = Vec::new();
    let mut i: usize = 0;
    while i < n_words
        invariant
            0 <= i <= n_words,
            start + n_words * 8 <= b@.len(),
            out@.len() == i,
            forall|k: int|
                0 <= k < i ==> out@[k] == spec_u64_from_le_bytes(
                    b@.subrange(start + k * 8, start + (k + 1) * 8),
                ),
        decreases n_words - i,
    {
        proof {
            assert(start + (i + 1) * 8 <= start + n_words * 8) by (nonlinear_arith)
                requires
                    0 <= i < n_words,
            ;
            assert((i as int) * 8 + 8 == (i as int + 1) * 8) by (nonlinear_arith);
        }
        let mut chunk: Vec<u8> = Vec::new();
        let mut k: usize = 0;
        while k < 8
            invariant
                0 <= k <= 8,
                start + (i as int) * 8 + 8 <= b@.len(),
                i < n_words,
                chunk@ =~= b@.subrange(
                    start + (i as int) * 8,
                    start + (i as int) * 8 + k as int,
                ),
            decreases 8 - k,
        {
            chunk.push(b[start + i * 8 + k]);
            proof {
                assert(chunk@ =~= b@.subrange(
                    start + (i as int) * 8,
                    start + (i as int) * 8 + k as int + 1,
                ));
            }
            k += 1;
        }
        let word = u64_from_le_bytes(chunk.as_slice());
        out.push(word);
        i += 1;
    }
    Some(out)
}

/// Computes the payload checksum.
#[verifier::loop_isolation(false)]
pub fn checksum_exec(s: &Vec<u8>) -> (r: u64)
    ensures
        r == checksum(s@),
{
    let mut acc: u64 = 0;
    let mut i: usize = 0;
    while i < s.len()
        invariant
            0 <= i <= s@.len(),
            acc == checksum(s@.take(i as int)),
        decreases s@.len() - i,
    {
        proof {
            assert(s@.take(i as int + 1).drop_last() =~= s@.take(i as int));
            assert(s@.take(i as int + 1).last() == s@[i as int]);
        }
        acc = (((acc as u128) + (s[i] as u128)) % 0x1_0000_0000_0000_0000) as u64;
        i += 1;
    }
    proof {
        assert(s@.take(s@.len() as int) =~= s@);
    }
    acc
}

/// Applies the key stream to a byte sequence, starting at an offset into
/// the stream.
#[verifier::loop_isolation(false)]
pub fn xor_exec(a: &Vec<u8>, stream: &Vec<u8>, off: usize) -> (r: Vec<u8>)
    requires
        off + a@.len() <= stream@.len(),
    ensures
        r@ == xor_bytes(a@, stream@.skip(off as int)),
{
    let mut out: Vec<u8> = Vec::new();
    let mut i: usize = 0;
    let sl = stream.len();
    while i < a.len()
        invariant
            0 <= i <= a@.len(),
            sl == stream@.len(),
            off + a@.len() <= sl,
            out@ =~= xor_bytes(a@, stream@.skip(off as int)).take(i as int),
        decreases a@.len() - i,
    {
        out.push(a[i] ^ stream[off + i]);
        proof {
            assert(out@ =~= xor_bytes(a@, stream@.skip(off as int)).take(i as int + 1));
        }
        i += 1;
    }
    proof {
        assert(xor_bytes(a@, stream@.skip(off as int)).take(a@.len() as int) =~= xor_bytes(
            a@,
            stream@.skip(off as int),
        ));
    }
    out
}


/// Largest archive the restore path accepts, in bytes.
pub const MAX_ARCHIVE_BYTES: usize = 0x4000_0000;

/// The wallet as a backup stamps it just before encoding: the clock steps
/// and the backup stamp catches up with it.
pub open spec fn stamped(w: Wallet) -> Wallet {
    Wallet { clock: bump(w.clock), last_backup: bump(w.clock), ..w }
}

impl Wallet {
    /// Produces the encrypted archive of this wallet's durable state and
    /// advances the backup stamp, making a new backup unnecessary until
    /// the next mutating operation. The caller is responsible for the
    /// target file: `path_exists` answers whether `path` is already
    /// occupied, and a backup never overwrites an existing file.
    #[verifier::rlimit(100)]
    #[verifier::spinoff_prover]
    pub fn backup_customize(
        &mut self,
        path: &str,
        path_exists: bool,
        password: &str,
        params: Option<ScryptParams>,
    ) -> (r: Result<Vec<u8>, Error>)
        requires
            old(self).wf(),
        ensures
            final(self).wf(),
            path_exists ==> (r matches Err(Error::FileAlreadyExists { path: p }) && p@ == path@
                && *final(self) == *old(self)),
            r matches Ok(a) ==> {
                &&& *final(self) == stamped(*old(self))
                &&& !final(self).spec_backup_required()
                &&& a@ == spec_archive(
                    *final(self),
                    password.spec_bytes(),
                    final(self).wallet_id,
                    final(self).clock,
                    match params {
                        Some(p) => p,
                        None => ScryptParams { log_n: DEFAULT_LOG_N, r: DEFAULT_R, p: DEFAULT_P },
                    },
                )
                &&& a@.len() <= MAX_ARCHIVE_BYTES
            },
            r is Err ==> (r matches Err(Error::FileAlreadyExists { .. }) || r matches Err(
                Error::Inconsistency { .. },
            )),
            !path_exists && !(match params {
                Some(p) => p.valid(),
                None => true,
            }) ==> (r matches Err(Error::Inconsistency { .. }) && *final(self) == *old(self)),
            // Success is owed: an unoccupied path, supported parameters and a
            // state whose encoding fits the archive bound always back up.
            !path_exists && (match params {
                Some(p) => p.valid(),
                None => true,
            }) && wallet_words(stamped(*old(self))).len() * 8 <= MAX_ARCHIVE_BYTES - 104 ==> r
                is Ok,
    {
        if path_exists {
            return Err(Error::FileAlreadyExists { path: path.to_owned() });
        }
        let prm = match params {
            Some(p) => p,
            None => ScryptParams { log_n: DEFAULT_LOG_N, r: DEFAULT_R, p: DEFAULT_P },
        };
        if !(1 <= prm.log_n && prm.log_n <= 20 && 1 <= prm.r && prm.r <= 32 && 1 <= prm.p && prm.p
            <= 16) {
            return Err(Error::Inconsistency {
                details: "unsupported key-derivation cost parameters".to_owned(),
            });
        }
        // Advance the backup stamp first: the archive records that this
        // state has been backed up.
        self.clock = if self.clock == u64::MAX {
            self.clock
        } else {
            self.clock + 1
        };
        self.last_backup = self.clock;
        proof {
            assert(codec_fits(*self));
        }
        proof {
            assert(*self == stamped(*old(self)));
        }
        let words = encode_wallet(self);
        let mut plain = words_to_bytes_exec(&words);
        proof {
            lemma_words_to_bytes_len(words@);
        }
        if plain.len() > MAX_ARCHIVE_BYTES - 104 {
            return Err(Error::Inconsistency { details: "state too large to archive".to_owned() });
        }
        let ghost payload0 = plain@;
        let cs = checksum_exec(&plain);
        let mut csb = u64_to_le_bytes(cs);
        plain.append(&mut csb);
        let salt_a = self.wallet_id;
        let salt_b = self.clock;
        let mut salt = u64_to_le_bytes(salt_a);
        let mut sb2 = u64_to_le_bytes(salt_b);
        salt.append(&mut sb2);
        let stream = match derive_stream(
            password.as_bytes(),
            salt.as_slice(),
            prm.log_n,
            prm.r,
            prm.p,
            32 + plain.len(),
        ) {
            Some(v) => v,
            None => {
                return Err(Error::Inconsistency {
                    details: "key derivation refused the request".to_owned(),
                });
            },
        };
        proof {
            assert(stream@ =~= key_stream(
                password.spec_bytes(),
                salt@,
                prm.log_n,
                prm.r,
                prm.p,
                (32 + plain@.len()) as nat,
            ));
        }
        let mut header: Vec<u64> = Vec::new();
        header.push(ARCHIVE_MAGIC);
        header.push(ARCHIVE_VERSION);
        header.push(prm.log_n as u64);
        header.push(prm.r as u64);
        header.push(prm.p as u64);
        header.push(salt_a);
        header.push(salt_b);
        header.push(plain.len() as u64);
        let mut out = words_to_bytes_exec(&header);
        let mut i: usize = 0;
        let ghost out0 = out@;
        while i < 32
            invariant
                0 <= i <= 32,
                stream@.len() == 32 + plain@.len(),
                out@ == out0 + stream@.take(i as int),
            decreases 32 - i,
        {
            out.push(stream[i]);
            proof {
                assert(out@ =~= out0 + stream@.take(i as int + 1));
            }
            i += 1;
        }
        let mut cipher = xor_exec(&plain, &stream, 32);
        out.append(&mut cipher);
        proof {
            assert(header@ =~= seq![
                ARCHIVE_MAGIC,
                ARCHIVE_VERSION,
                prm.log_n as u64,
                prm.r as u64,
                prm.p as u64,
                salt_a,
                salt_b,
                plain@.len() as u64,
            ]);
            assert(plain@ =~= payload0 + spec_u64_to_le_bytes(cs));
            assert(salt@ =~= spec_u64_to_le_bytes(salt_a) + spec_u64_to_le_bytes(salt_b));
            assert(out@ =~= spec_archive(
                *self,
                password.spec_bytes(),
                salt_a,
                salt_b,
                prm,
            ));
            lemma_words_to_bytes_len(header@);
            assert(out@.len() == 96 + plain@.len());
        }
        Ok(out)
    }

    /// Produces the encrypted archive under the default cost parameters.
    pub fn backup(&mut self, path: &str, path_exists: bool, password: &str) -> (r: Result<
        Vec<u8>,
        Error,
    >)
        requires
            old(self).wf(),
        ensures
            final(self).wf(),
            path_exists ==> (r matches Err(Error::FileAlreadyExists { path: p }) && p@ == path@
                && *final(self) == *old(self)),
            r matches Ok(a) ==> {
                &&& *final(self) == stamped(*old(self))
                &&& !final(self).spec_backup_required()
                &&& a@ == spec_archive(
                    *final(self),
                    password.spec_bytes(),
                    final(self).wallet_id,
                    final(self).clock,
                    ScryptParams { log_n: DEFAULT_LOG_N, r: DEFAULT_R, p: DEFAULT_P },
                )
                &&& a@.len() <= MAX_ARCHIVE_BYTES
            },
            r is Err ==> (r matches Err(Error::FileAlreadyExists { .. }) || r matches Err(
                Error::Inconsistency { .. },
            )),
            !path_exists && wallet_words(stamped(*old(self))).len() * 8 <= MAX_ARCHIVE_BYTES - 104
                ==> r is Ok,
    {
        self.backup_customize(path, path_exists, password, None)
    }
}

/// Whether some well-formed wallet state, salt and supported parameters
/// produce exactly these archive bytes under this password.
pub open spec fn genuine_archive(a: Seq<u8>, pw: Seq<u8>) -> bool {
    exists|w: Wallet, sa: u64, sb: u64, prm: ScryptParams|
        w.wf() && prm.valid() && a == #[trigger] spec_archive(w, pw, sa, sb, prm)
}

/// Decrypts an archive and reconstructs the wallet state it holds.
///
/// Every failure is reported uniformly as `WrongPassword`: the caller (and
/// an attacker) cannot tell which check failed. An archive that `backup`
/// wrote restores successfully under its password, and what comes back is
/// the content of a wallet state that archives to exactly these bytes.
#[verifier::rlimit(100)]
#[verifier::spinoff_prover]
#[verifier::loop_isolation(false)]
pub fn restore_backup(archive: &Vec<u8>, password: &str) -> (r: Result<Wallet, Error>)
    ensures
        r is Err ==> r matches Err(Error::WrongPassword),
        (archive@.len() <= MAX_ARCHIVE_BYTES && genuine_archive(
            archive@,
            password.spec_bytes(),
        )) ==> (r matches Ok(w2) && exists|w: Wallet, sa: u64, sb: u64, prm: ScryptParams|
            w.wf() && prm.valid() && archive@ == #[trigger] spec_archive(
                w,
                password.spec_bytes(),
                sa,
                sb,
                prm,
            ) && wallet_like(w2, offline(w)) && w2.wf()),
{
    let ghost pwb = password.spec_bytes();
    let ghost hyp = archive@.len() <= MAX_ARCHIVE_BYTES && genuine_archive(archive@, pwb);
    let ghost (gw, gsa, gsb, gprm): (Wallet, u64, u64, ScryptParams) = if hyp {
        choose|w: Wallet, sa: u64, sb: u64, prm: ScryptParams|
            w.wf() && prm.valid() && archive@ == #[trigger] spec_archive(w, pwb, sa, sb, prm)
    } else {
        arbitrary()
    };
    let ghost gplain = words_to_bytes(wallet_words(gw)) + spec_u64_to_le_bytes(
        checksum(words_to_bytes(wallet_words(gw))),
    );
    let ghost gsalt = spec_u64_to_le_bytes(gsa) + spec_u64_to_le_bytes(gsb);
    let ghost gstream = key_stream(
        pwb,
        gsalt,
        gprm.log_n,
        gprm.r,
        gprm.p,
        (32 + gplain.len()) as nat,
    );
    let ghost ghw = seq![
        ARCHIVE_MAGIC,
        ARCHIVE_VERSION,
        gprm.log_n as u64,
        gprm.r as u64,
        gprm.p as u64,
        gsa,
        gsb,
        gplain.len() as u64,
    ];
    proof {
        if hyp {
            lemma_words_to_bytes_len(ghw);
            lemma_words_to_bytes_len(wallet_words(gw));
            assert(archive@ == words_to_bytes(ghw) + gstream.take(32) + xor_bytes(
                gplain,
                gstream.skip(32),
            ));
        }
    }
    if archive.len() < 104 {
        return Err(Error::WrongPassword);
    }
    // Header: magic, version, cost parameters, salt, payload length.
    let header = match bytes_to_words_exec(archive, 0, 8) {
        Some(v) => v,
        None => {
            return Err(Error::WrongPassword);
        },
    };
    proof {
        if hyp {
            lemma_auto_spec_u64_to_from_le_bytes();
            assert forall|i: int| 0 <= i < 8 implies header@[i] == ghw[i] by {
                lemma_words_to_bytes_seg(ghw, i);
                assert(archive@.subrange(i * 8, (i + 1) * 8) =~= words_to_bytes(ghw).subrange(
                    i * 8,
                    (i + 1) * 8,
                ));
            }
        }
    }
    let magic = header[0];
    let version = header[1];
    let lnw = header[2];
    let rw = header[3];
    let pw_ = header[4];
    let salt_a = header[5];
    let salt_b = header[6];
    let plen64 = header[7];
    if magic != ARCHIVE_MAGIC || version != ARCHIVE_VERSION {
        return Err(Error::WrongPassword);
    }
    if lnw > 20 || lnw < 1 || rw > 32 || rw < 1 || pw_ > 16 || pw_ < 1 {
        return Err(Error::WrongPassword);
    }
    let prm = ScryptParams { log_n: lnw as u8, r: rw as u32, p: pw_ as u32 };
    let al = archive.len();
    proof {
        if hyp {
            assert(words_to_bytes(ghw).len() == 64);
            assert(gstream.take(32).len() == 32);
            assert(xor_bytes(gplain, gstream.skip(32)).len() == gplain.len());
            assert(archive@.len() == 96 + gplain.len());
            assert(plen64 == gplain.len() as u64);
        }
    }
    if plen64 != (al - 96) as u64 {
        return Err(Error::WrongPassword);
    }
    let plen = al - 96;
    if plen < 8 || plen % 8 != 0 {
        proof {
            if hyp {
                assert(gplain.len() == words_to_bytes(wallet_words(gw)).len() + 8);
                assert(wallet_words(gw).len() * 8 % 8 == 0) by (nonlinear_arith);
            }
        }
        return Err(Error::WrongPassword);
    }
    // Re-derive the key stream from the password and the stored salt.
    let mut salt = u64_to_le_bytes(salt_a);
    let mut sb2 = u64_to_le_bytes(salt_b);
    salt.append(&mut sb2);
    let stream = match derive_stream(
        password.as_bytes(),
        salt.as_slice(),
        prm.log_n,
        prm.r,
        prm.p,
        32 + plen,
    ) {
        Some(v) => v,
        None => {
            return Err(Error::WrongPassword);
        },
    };
    proof {
        if hyp {
            assert(salt@ =~= gsalt);
            assert(gplain.len() == plen);
            assert(stream@ =~= gstream);
        }
    }
    // Key check: the stored tag must match the stream's opening bytes.
    let mut i: usize = 0;
    while i < 32
        invariant
            0 <= i <= 32,
            stream@.len() == 32 + plen,
            al == archive@.len(),
            96 + plen == al,
            forall|k: int| 0 <= k < i ==> archive@[64 + k] == stream@[k],
        decreases 32 - i,
    {
        if archive[64 + i] != stream[i] {
            proof {
                if hyp {
                    assert(archive@[64 + i] == gstream.take(32)[i as int]);
                }
            }
            return Err(Error::WrongPassword);
        }
        i += 1;
    }
    // Decrypt and verify the payload checksum.
    let mut cipher: Vec<u8> = Vec::new();
    let mut j: usize = 0;
    while j < plen
        invariant
            0 <= j <= plen,
            96 + plen == al,
            al == archive@.len(),
            cipher@ =~= archive@.subrange(96, 96 + j as int),
        decreases plen - j,
    {
        cipher.push(archive[96 + j]);
        proof {
            assert(cipher@ =~= archive@.subrange(96, 96 + j as int + 1));
        }
        j += 1;
    }
    let plain = xor_exec(&cipher, &stream, 32);
    proof {
        if hyp {
            assert(cipher@ =~= xor_bytes(gplain, gstream.skip(32)));
            lemma_xor_involution(gplain, gstream.skip(32));
            assert(plain@ =~= gplain);
        }
    }
    let n_payload = plen - 8;
    let mut payload: Vec<u8> = Vec::new();
    let mut k: usize = 0;
    while k < n_payload
        invariant
            0 <= k <= n_payload,
            n_payload == plen - 8,
            plain@.len() == plen,
            payload@ =~= plain@.subrange(0, k as int),
        decreases n_payload - k,
    {
        payload.push(plain[k]);
        proof {
            assert(payload@ =~= plain@.subrange(0, k as int + 1));
        }
        k += 1;
    }
    let cs = checksum_exec(&payload);
    let tail = match bytes_to_words_exec(&plain, n_payload, 1) {
        Some(v) => v,
        None => {
            return Err(Error::WrongPassword);
        },
    };
    proof {
        if hyp {
            lemma_auto_spec_u64_to_from_le_bytes();
            assert(payload@ =~= words_to_bytes(wallet_words(gw)));
            assert(plain@.subrange(
                n_payload as int,
                n_payload as int + 8,
            ) =~= spec_u64_to_le_bytes(checksum(words_to_bytes(wallet_words(gw)))));
            assert(tail@[0] == spec_u64_from_le_bytes(
                plain@.subrange(n_payload as int, n_payload as int + 8),
            ));
        }
    }
    if tail[0] != cs {
        return Err(Error::WrongPassword);
    }
    // Decode the wallet state.
    let n_words = n_payload / 8;
    proof {
        vstd::arithmetic::div_mod::lemma_fundamental_div_mod(n_payload as int, 8);
        if hyp {
            lemma_words_to_bytes_len(wallet_words(gw));
        }
    }
    let words = match bytes_to_words_exec(&payload, 0, n_words) {
        Some(v) => v,
        None => {
            return Err(Error::WrongPassword);
        },
    };
    proof {
        if hyp {
            lemma_auto_spec_u64_to_from_le_bytes();
            assert forall|q: int| 0 <= q < n_words implies words@[q] == wallet_words(gw)[q] by {
                lemma_words_to_bytes_seg(wallet_words(gw), q);
                assert(payload@.subrange(q * 8, (q + 1) * 8) =~= words_to_bytes(
                    wallet_words(gw),
                ).subrange(q * 8, (q + 1) * 8));
            }
            assert(words@ =~= wallet_words(gw));
            assert(codec_fits(gw));
        }
    }
    let w2 = match decode_wallet(&words, Ghost(gw)) {
        Some(w2) => w2,
        None => {
            return Err(Error::WrongPassword);
        },
    };
    proof {
        if hyp {
            assert(wallet_like(w2, offline(gw)));
            assert(w2.wf());
        }
    }
    Ok(w2)
}

} // verus!
