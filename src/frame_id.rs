//! The table between the three-character frame identifiers of ID3v2.2 and
//! the four-character ones of later revisions.
use vstd::prelude::*;
use crate::bytes::copy_range;

verus! {

/// How many pairs the table holds.
pub const ID_PAIRS: usize = 62;

/// The table, one pair per seven bytes: the three-character identifier, then
/// the four-character one.
#[verifier::opaque]
pub open spec fn id_table() -> Seq<u8> {
    seq![
        0x42u8, 0x55u8, 0x46u8, 0x52u8, 0x42u8, 0x55u8, 0x46u8,  // BUF RBUF
        0x43u8, 0x4Eu8, 0x54u8, 0x50u8, 0x43u8, 0x4Eu8, 0x54u8,  // CNT PCNT
        0x43u8, 0x4Fu8, 0x4Du8, 0x43u8, 0x4Fu8, 0x4Du8, 0x4Du8,  // COM COMM
        0x43u8, 0x52u8, 0x41u8, 0x41u8, 0x45u8, 0x4Eu8, 0x43u8,  // CRA AENC
        0x45u8, 0x54u8, 0x43u8, 0x45u8, 0x54u8, 0x43u8, 0x4Fu8,  // ETC ETCO
        0x45u8, 0x51u8, 0x55u8, 0x45u8, 0x51u8, 0x55u8, 0x41u8,  // EQU EQUA
        0x47u8, 0x45u8, 0x4Fu8, 0x47u8, 0x45u8, 0x4Fu8, 0x42u8,  // GEO GEOB
        0x49u8, 0x50u8, 0x4Cu8, 0x49u8, 0x50u8, 0x4Cu8, 0x53u8,  // IPL IPLS
        0x4Cu8, 0x4Eu8, 0x4Bu8, 0x4Cu8, 0x49u8, 0x4Eu8, 0x4Bu8,  // LNK LINK
        0x4Du8, 0x43u8, 0x49u8, 0x4Du8, 0x43u8, 0x44u8, 0x49u8,  // MCI MCDI
        0x4Du8, 0x4Cu8, 0x4Cu8, 0x4Du8, 0x4Cu8, 0x4Cu8, 0x54u8,  // MLL MLLT
        0x50u8, 0x49u8, 0x43u8, 0x41u8, 0x50u8, 0x49u8, 0x43u8,  // PIC APIC
        0x50u8, 0x4Fu8, 0x50u8, 0x50u8, 0x4Fu8, 0x50u8, 0x4Du8,  // POP POPM
        0x52u8, 0x45u8, 0x56u8, 0x52u8, 0x56u8, 0x52u8, 0x42u8,  // REV RVRB
        0x52u8, 0x56u8, 0x41u8, 0x52u8, 0x56u8, 0x41u8, 0x44u8,  // RVA RVAD
        0x53u8, 0x4Cu8, 0x54u8, 0x53u8, 0x59u8, 0x4Cu8, 0x54u8,  // SLT SYLT
        0x53u8, 0x54u8, 0x43u8, 0x53u8, 0x59u8, 0x54u8, 0x43u8,  // STC SYTC
        0x54u8, 0x41u8, 0x4Cu8, 0x54u8, 0x41u8, 0x4Cu8, 0x42u8,  // TAL TALB
        0x54u8, 0x42u8, 0x50u8, 0x54u8, 0x42u8, 0x50u8, 0x4Du8,  // TBP TBPM
        0x54u8, 0x43u8, 0x4Du8, 0x54u8, 0x43u8, 0x4Fu8, 0x4Du8,  // TCM TCOM
        0x54u8, 0x43u8, 0x4Fu8, 0x54u8, 0x43u8, 0x4Fu8, 0x4Eu8,  // TCO TCON
        0x54u8, 0x43u8, 0x52u8, 0x54u8, 0x43u8, 0x4Fu8, 0x50u8,  // TCR TCOP
        0x54u8, 0x44u8, 0x41u8, 0x54u8, 0x44u8, 0x41u8, 0x54u8,  // TDA TDAT
        0x54u8, 0x44u8, 0x59u8, 0x54u8, 0x44u8, 0x4Cu8, 0x59u8,  // TDY TDLY
        0x54u8, 0x45u8, 0x4Eu8, 0x54u8, 0x45u8, 0x4Eu8, 0x43u8,  // TEN TENC
        0x54u8, 0x46u8, 0x54u8, 0x54u8, 0x46u8, 0x4Cu8, 0x54u8,  // TFT TFLT
        0x54u8, 0x49u8, 0x4Du8, 0x54u8, 0x49u8, 0x4Du8, 0x45u8,  // TIM TIME
        0x54u8, 0x4Bu8, 0x45u8, 0x54u8, 0x4Bu8, 0x45u8, 0x59u8,  // TKE TKEY
        0x54u8, 0x4Cu8, 0x41u8, 0x54u8, 0x4Cu8, 0x41u8, 0x4Eu8,  // TLA TLAN
        0x54u8, 0x4Cu8, 0x45u8, 0x54u8, 0x4Cu8, 0x45u8, 0x4Eu8,  // TLE TLEN
        0x54u8, 0x4Du8, 0x54u8, 0x54u8, 0x4Du8, 0x45u8, 0x44u8,  // TMT TMED
        0x54u8, 0x4Fu8, 0x41u8, 0x54u8, 0x4Fu8, 0x50u8, 0x45u8,  // TOA TOPE
        0x54u8, 0x4Fu8, 0x46u8, 0x54u8, 0x4Fu8, 0x46u8, 0x4Eu8,  // TOF TOFN
        0x54u8, 0x4Fu8, 0x4Cu8, 0x54u8, 0x4Fu8, 0x4Cu8, 0x59u8,  // TOL TOLY
        0x54u8, 0x4Fu8, 0x52u8, 0x54u8, 0x4Fu8, 0x52u8, 0x59u8,  // TOR TORY
        0x54u8, 0x4Fu8, 0x54u8, 0x54u8, 0x4Fu8, 0x41u8, 0x4Cu8,  // TOT TOAL
        0x54u8, 0x50u8, 0x31u8, 0x54u8, 0x50u8, 0x45u8, 0x31u8,  // TP1 TPE1
        0x54u8, 0x50u8, 0x32u8, 0x54u8, 0x50u8, 0x45u8, 0x32u8,  // TP2 TPE2
        0x54u8, 0x50u8, 0x33u8, 0x54u8, 0x50u8, 0x45u8, 0x33u8,  // TP3 TPE3
        0x54u8, 0x50u8, 0x34u8, 0x54u8, 0x50u8, 0x45u8, 0x34u8,  // TP4 TPE4
        0x54u8, 0x50u8, 0x41u8, 0x54u8, 0x50u8, 0x4Fu8, 0x53u8,  // TPA TPOS
        0x54u8, 0x50u8, 0x42u8, 0x54u8, 0x50u8, 0x55u8, 0x42u8,  // TPB TPUB
        0x54u8, 0x52u8, 0x43u8, 0x54u8, 0x53u8, 0x52u8, 0x43u8,  // TRC TSRC
        0x54u8, 0x52u8, 0x44u8, 0x54u8, 0x52u8, 0x44u8, 0x41u8,  // TRD TRDA
        0x54u8, 0x52u8, 0x4Bu8, 0x54u8, 0x52u8, 0x43u8, 0x4Bu8,  // TRK TRCK
        0x54u8, 0x53u8, 0x49u8, 0x54u8, 0x53u8, 0x49u8, 0x5Au8,  // TSI TSIZ
        0x54u8, 0x53u8, 0x53u8, 0x54u8, 0x53u8, 0x53u8, 0x45u8,  // TSS TSSE
        0x54u8, 0x54u8, 0x31u8, 0x54u8, 0x49u8, 0x54u8, 0x31u8,  // TT1 TIT1
        0x54u8, 0x54u8, 0x32u8, 0x54u8, 0x49u8, 0x54u8, 0x32u8,  // TT2 TIT2
        0x54u8, 0x54u8, 0x33u8, 0x54u8, 0x49u8, 0x54u8, 0x33u8,  // TT3 TIT3
        0x54u8, 0x58u8, 0x54u8, 0x54u8, 0x45u8, 0x58u8, 0x54u8,  // TXT TEXT
        0x54u8, 0x58u8, 0x58u8, 0x54u8, 0x58u8, 0x58u8, 0x58u8,  // TXX TXXX
        0x54u8, 0x59u8, 0x45u8, 0x54u8, 0x59u8, 0x45u8, 0x52u8,  // TYE TYER
        0x55u8, 0x46u8, 0x49u8, 0x55u8, 0x46u8, 0x49u8, 0x44u8,  // UFI UFID
        0x55u8, 0x4Cu8, 0x54u8, 0x55u8, 0x53u8, 0x4Cu8, 0x54u8,  // ULT USLT
        0x57u8, 0x41u8, 0x46u8, 0x57u8, 0x4Fu8, 0x41u8, 0x46u8,  // WAF WOAF
        0x57u8, 0x41u8, 0x52u8, 0x57u8, 0x4Fu8, 0x41u8, 0x52u8,  // WAR WOAR
        0x57u8, 0x41u8, 0x53u8, 0x57u8, 0x4Fu8, 0x41u8, 0x53u8,  // WAS WOAS
        0x57u8, 0x43u8, 0x4Du8, 0x57u8, 0x43u8, 0x4Fu8, 0x4Du8,  // WCM WCOM
        0x57u8, 0x43u8, 0x50u8, 0x57u8, 0x43u8, 0x4Fu8, 0x50u8,  // WCP WCOP
        0x57u8, 0x50u8, 0x42u8, 0x57u8, 0x50u8, 0x55u8, 0x42u8,  // WPB WPUB
        0x57u8, 0x58u8, 0x58u8, 0x57u8, 0x58u8, 0x58u8, 0x58u8,  // WXX WXXX
    ]
}

/// The table holds seven bytes per pair.
pub proof fn lemma_id_table_len()
    ensures
        id_table().len() == 7 * ID_PAIRS,
{
    reveal(id_table);
}

fn id_table_exec() -> (r: Vec<u8>)
    ensures
        r@ == id_table(),
        r@.len() == 7 * ID_PAIRS,
{
    let r: Vec<u8> = vec![
        0x42u8, 0x55u8, 0x46u8, 0x52u8, 0x42u8, 0x55u8, 0x46u8,  // BUF RBUF
        0x43u8, 0x4Eu8, 0x54u8, 0x50u8, 0x43u8, 0x4Eu8, 0x54u8,  // CNT PCNT
        0x43u8, 0x4Fu8, 0x4Du8, 0x43u8, 0x4Fu8, 0x4Du8, 0x4Du8,  // COM COMM
        0x43u8, 0x52u8, 0x41u8, 0x41u8, 0x45u8, 0x4Eu8, 0x43u8,  // CRA AENC
        0x45u8, 0x54u8, 0x43u8, 0x45u8, 0x54u8, 0x43u8, 0x4Fu8,  // ETC ETCO
        0x45u8, 0x51u8, 0x55u8, 0x45u8, 0x51u8, 0x55u8, 0x41u8,  // EQU EQUA
        0x47u8, 0x45u8, 0x4Fu8, 0x47u8, 0x45u8, 0x4Fu8, 0x42u8,  // GEO GEOB
        0x49u8, 0x50u8, 0x4Cu8, 0x49u8, 0x50u8, 0x4Cu8, 0x53u8,  // IPL IPLS
        0x4Cu8, 0x4Eu8, 0x4Bu8, 0x4Cu8, 0x49u8, 0x4Eu8, 0x4Bu8,  // LNK LINK
        0x4Du8, 0x43u8, 0x49u8, 0x4Du8, 0x43u8, 0x44u8, 0x49u8,  // MCI MCDI
        0x4Du8, 0x4Cu8, 0x4Cu8, 0x4Du8, 0x4Cu8, 0x4Cu8, 0x54u8,  // MLL MLLT
        0x50u8, 0x49u8, 0x43u8, 0x41u8, 0x50u8, 0x49u8, 0x43u8,  // PIC APIC
        0x50u8, 0x4Fu8, 0x50u8, 0x50u8, 0x4Fu8, 0x50u8, 0x4Du8,  // POP POPM
        0x52u8, 0x45u8, 0x56u8, 0x52u8, 0x56u8, 0x52u8, 0x42u8,  // REV RVRB
        0x52u8, 0x56u8, 0x41u8, 0x52u8, 0x56u8, 0x41u8, 0x44u8,  // RVA RVAD
        0x53u8, 0x4Cu8, 0x54u8, 0x53u8, 0x59u8, 0x4Cu8, 0x54u8,  // SLT SYLT
        0x53u8, 0x54u8, 0x43u8, 0x53u8, 0x59u8, 0x54u8, 0x43u8,  // STC SYTC
        0x54u8, 0x41u8, 0x4Cu8, 0x54u8, 0x41u8, 0x4Cu8, 0x42u8,  // TAL TALB
        0x54u8, 0x42u8, 0x50u8, 0x54u8, 0x42u8, 0x50u8, 0x4Du8,  // TBP TBPM
        0x54u8, 0x43u8, 0x4Du8, 0x54u8, 0x43u8, 0x4Fu8, 0x4Du8,  // TCM TCOM
        0x54u8, 0x43u8, 0x4Fu8, 0x54u8, 0x43u8, 0x4Fu8, 0x4Eu8,  // TCO TCON
        0x54u8, 0x43u8, 0x52u8, 0x54u8, 0x43u8, 0x4Fu8, 0x50u8,  // TCR TCOP
        0x54u8, 0x44u8, 0x41u8, 0x54u8, 0x44u8, 0x41u8, 0x54u8,  // TDA TDAT
        0x54u8, 0x44u8, 0x59u8, 0x54u8, 0x44u8, 0x4Cu8, 0x59u8,  // TDY TDLY
        0x54u8, 0x45u8, 0x4Eu8, 0x54u8, 0x45u8, 0x4Eu8, 0x43u8,  // TEN TENC
        0x54u8, 0x46u8, 0x54u8, 0x54u8, 0x46u8, 0x4Cu8, 0x54u8,  // TFT TFLT
        0x54u8, 0x49u8, 0x4Du8, 0x54u8, 0x49u8, 0x4Du8, 0x45u8,  // TIM TIME
        0x54u8, 0x4Bu8, 0x45u8, 0x54u8, 0x4Bu8, 0x45u8, 0x59u8,  // TKE TKEY
        0x54u8, 0x4Cu8, 0x41u8, 0x54u8, 0x4Cu8, 0x41u8, 0x4Eu8,  // TLA TLAN
        0x54u8, 0x4Cu8, 0x45u8, 0x54u8, 0x4Cu8, 0x45u8, 0x4Eu8,  // TLE TLEN
        0x54u8, 0x4Du8, 0x54u8, 0x54u8, 0x4Du8, 0x45u8, 0x44u8,  // TMT TMED
        0x54u8, 0x4Fu8, 0x41u8, 0x54u8, 0x4Fu8, 0x50u8, 0x45u8,  // TOA TOPE
        0x54u8, 0x4Fu8, 0x46u8, 0x54u8, 0x4Fu8, 0x46u8, 0x4Eu8,  // TOF TOFN
        0x54u8, 0x4Fu8, 0x4Cu8, 0x54u8, 0x4Fu8, 0x4Cu8, 0x59u8,  // TOL TOLY
        0x54u8, 0x4Fu8, 0x52u8, 0x54u8, 0x4Fu8, 0x52u8, 0x59u8,  // TOR TORY
        0x54u8, 0x4Fu8, 0x54u8, 0x54u8, 0x4Fu8, 0x41u8, 0x4Cu8,  // TOT TOAL
        0x54u8, 0x50u8, 0x31u8, 0x54u8, 0x50u8, 0x45u8, 0x31u8,  // TP1 TPE1
        0x54u8, 0x50u8, 0x32u8, 0x54u8, 0x50u8, 0x45u8, 0x32u8,  // TP2 TPE2
        0x54u8, 0x50u8, 0x33u8, 0x54u8, 0x50u8, 0x45u8, 0x33u8,  // TP3 TPE3
        0x54u8, 0x50u8, 0x34u8, 0x54u8, 0x50u8, 0x45u8, 0x34u8,  // TP4 TPE4
        0x54u8, 0x50u8, 0x41u8, 0x54u8, 0x50u8, 0x4Fu8, 0x53u8,  // TPA TPOS
        0x54u8, 0x50u8, 0x42u8, 0x54u8, 0x50u8, 0x55u8, 0x42u8,  // TPB TPUB
        0x54u8, 0x52u8, 0x43u8, 0x54u8, 0x53u8, 0x52u8, 0x43u8,  // TRC TSRC
        0x54u8, 0x52u8, 0x44u8, 0x54u8, 0x52u8, 0x44u8, 0x41u8,  // TRD TRDA
        0x54u8, 0x52u8, 0x4Bu8, 0x54u8, 0x52u8, 0x43u8, 0x4Bu8,  // TRK TRCK
        0x54u8, 0x53u8, 0x49u8, 0x54u8, 0x53u8, 0x49u8, 0x5Au8,  // TSI TSIZ
        0x54u8, 0x53u8, 0x53u8, 0x54u8, 0x53u8, 0x53u8, 0x45u8,  // TSS TSSE
        0x54u8, 0x54u8, 0x31u8, 0x54u8, 0x49u8, 0x54u8, 0x31u8,  // TT1 TIT1
        0x54u8, 0x54u8, 0x32u8, 0x54u8, 0x49u8, 0x54u8, 0x32u8,  // TT2 TIT2
        0x54u8, 0x54u8, 0x33u8, 0x54u8, 0x49u8, 0x54u8, 0x33u8,  // TT3 TIT3
        0x54u8, 0x58u8, 0x54u8, 0x54u8, 0x45u8, 0x58u8, 0x54u8,  // TXT TEXT
        0x54u8, 0x58u8, 0x58u8, 0x54u8, 0x58u8, 0x58u8, 0x58u8,  // TXX TXXX
        0x54u8, 0x59u8, 0x45u8, 0x54u8, 0x59u8, 0x45u8, 0x52u8,  // TYE TYER
        0x55u8, 0x46u8, 0x49u8, 0x55u8, 0x46u8, 0x49u8, 0x44u8,  // UFI UFID
        0x55u8, 0x4Cu8, 0x54u8, 0x55u8, 0x53u8, 0x4Cu8, 0x54u8,  // ULT USLT
        0x57u8, 0x41u8, 0x46u8, 0x57u8, 0x4Fu8, 0x41u8, 0x46u8,  // WAF WOAF
        0x57u8, 0x41u8, 0x52u8, 0x57u8, 0x4Fu8, 0x41u8, 0x52u8,  // WAR WOAR
        0x57u8, 0x41u8, 0x53u8, 0x57u8, 0x4Fu8, 0x41u8, 0x53u8,  // WAS WOAS
        0x57u8, 0x43u8, 0x4Du8, 0x57u8, 0x43u8, 0x4Fu8, 0x4Du8,  // WCM WCOM
        0x57u8, 0x43u8, 0x50u8, 0x57u8, 0x43u8, 0x4Fu8, 0x50u8,  // WCP WCOP
        0x57u8, 0x50u8, 0x42u8, 0x57u8, 0x50u8, 0x55u8, 0x42u8,  // WPB WPUB
        0x57u8, 0x58u8, 0x58u8, 0x57u8, 0x58u8, 0x58u8, 0x58u8,  // WXX WXXX
    ];
    reveal(id_table);
    assert(r@ =~= id_table());
    r
}

/// The three-character identifier of pair `i`.
pub open spec fn legacy_at(i: int) -> Seq<u8> {
    id_table().subrange(7 * i, 7 * i + 3)
}

/// The four-character identifier of pair `i`.
pub open spec fn canonical_at(i: int) -> Seq<u8> {
    id_table().subrange(7 * i + 3, 7 * i + 7)
}

/// The four-character identifier of the first pair from `i` on whose
/// three-character one is `l`.
pub open spec fn canonical_from(l: Seq<u8>, i: int) -> Option<Seq<u8>>
    decreases ID_PAIRS - i,
{
    if i < 0 || i >= ID_PAIRS {
        None
    } else if legacy_at(i) == l {
        Some(canonical_at(i))
    } else {
        canonical_from(l, i + 1)
    }
}

/// The three-character identifier of the first pair from `i` on whose
/// four-character one is `c`.
pub open spec fn legacy_from(c: Seq<u8>, i: int) -> Option<Seq<u8>>
    decreases ID_PAIRS - i,
{
    if i < 0 || i >= ID_PAIRS {
        None
    } else if canonical_at(i) == c {
        Some(legacy_at(i))
    } else {
        legacy_from(c, i + 1)
    }
}

/// The four-character identifier that the three-character `l` stands for.
pub open spec fn canonical_of(l: Seq<u8>) -> Option<Seq<u8>> {
    canonical_from(l, 0)
}

/// The three-character identifier that stands for the four-character `c`.
pub open spec fn legacy_of(c: Seq<u8>) -> Option<Seq<u8>> {
    legacy_from(c, 0)
}

fn eq_at(t: &Vec<u8>, at: usize, id: &[u8], len: usize) -> (r: bool)
    requires
        at + len <= t@.len(),
        id@.len() == len,
    ensures
        r == (t@.subrange(at as int, at + len) == id@),
{
    let n = t.len();
    let mut k: usize = 0;
    while k < len
        invariant
            k <= len,
            n == t@.len(),
            at + len <= t@.len(),
            id@.len() == len,
            forall|j: int| 0 <= j < k ==> t@[at + j] == id@[j],
        decreases len - k,
    {
        if t[at + k] != id[k] {
            assert(t@.subrange(at as int, at + len)[k as int] != id@[k as int]);
            return false;
        }
        k = k + 1;
    }
    assert(t@.subrange(at as int, at + len) =~= id@);
    true
}

/// The four-character identifier that the three-character `l` stands for, if
/// the table has one.
pub fn to_canonical(l: &[u8]) -> (r: Option<Vec<u8>>)
    ensures
        r is Some <==> canonical_of(l@) is Some,
        r is Some ==> r->0@ == canonical_of(l@)->0,
{
    if l.len() != 3 {
        proof {
            lemma_canonical_len(l@, 0);
        }
        return None;
    }
    let t = id_table_exec();
    let mut i: usize = 0;
    while i < ID_PAIRS
        invariant
            i <= ID_PAIRS,
            t@ == id_table(),
            t@.len() == 7 * ID_PAIRS,
            l@.len() == 3,
            canonical_from(l@, i as int) == canonical_of(l@),
        decreases ID_PAIRS - i,
    {
        if eq_at(&t, 7 * i, l, 3) {
            return Some(copy_range(t.as_slice(), 7 * i + 3, 4));
        }
        i = i + 1;
    }
    None
}

/// The three-character identifier that stands for the four-character `c`, if
/// the table has one.
pub fn to_legacy(c: &[u8]) -> (r: Option<Vec<u8>>)
    ensures
        r is Some <==> legacy_of(c@) is Some,
        r is Some ==> r->0@ == legacy_of(c@)->0,
{
    if c.len() != 4 {
        proof {
            lemma_legacy_len(c@, 0);
        }
        return None;
    }
    let t = id_table_exec();
    let mut i: usize = 0;
    while i < ID_PAIRS
        invariant
            i <= ID_PAIRS,
            t@ == id_table(),
            t@.len() == 7 * ID_PAIRS,
            c@.len() == 4,
            legacy_from(c@, i as int) == legacy_of(c@),
        decreases ID_PAIRS - i,
    {
        if eq_at(&t, 7 * i + 3, c, 4) {
            return Some(copy_range(t.as_slice(), 7 * i, 3));
        }
        i = i + 1;
    }
    None
}

proof fn lemma_canonical_len(l: Seq<u8>, i: int)
    requires
        l.len() != 3,
    ensures
        canonical_from(l, i) is None,
    decreases ID_PAIRS - i,
{
    lemma_id_table_len();
    if 0 <= i < ID_PAIRS {
        lemma_canonical_len(l, i + 1);
    }
}

proof fn lemma_legacy_len(c: Seq<u8>, i: int)
    requires
        c.len() != 4,
    ensures
        legacy_from(c, i) is None,
    decreases ID_PAIRS - i,
{
    lemma_id_table_len();
    if 0 <= i < ID_PAIRS {
        lemma_legacy_len(c, i + 1);
    }
}

/// A three-character identifier that the table gives has three characters.
pub proof fn lemma_legacy_of_len(c: Seq<u8>)
    ensures
        legacy_of(c) is Some ==> legacy_of(c)->0.len() == 3,
{
    lemma_legacy_from_len(c, 0);
}

proof fn lemma_legacy_from_len(c: Seq<u8>, i: int)
    ensures
        legacy_from(c, i) is Some ==> legacy_from(c, i)->0.len() == 3,
    decreases ID_PAIRS - i,
{
    lemma_id_table_len();
    if 0 <= i < ID_PAIRS {
        lemma_legacy_from_len(c, i + 1);
    }
}

} // verus!
