//! The names of the ID3v1 genre numbers.
use vstd::prelude::*;

verus! {

/// How many genres ID3v1 names.
pub const GENRE_COUNT: u8 = 80;

/// The genre names in order of their numbers, each followed by a zero byte.
#[verifier::opaque]
pub open spec fn genre_table() -> Seq<u8> {
    seq![
        0x42u8, 0x6Cu8, 0x75u8, 0x65u8, 0x73u8, 0x00u8,  // Blues
        0x43u8, 0x6Cu8, 0x61u8, 0x73u8, 0x73u8, 0x69u8, 0x63u8, 0x20u8, 0x52u8, 0x6Fu8, 0x63u8, 0x6Bu8, 0x00u8,  // Classic Rock
        0x43u8, 0x6Fu8, 0x75u8, 0x6Eu8, 0x74u8, 0x72u8, 0x79u8, 0x00u8,  // Country
        0x44u8, 0x61u8, 0x6Eu8, 0x63u8, 0x65u8, 0x00u8,  // Dance
        0x44u8, 0x69u8, 0x73u8, 0x63u8, 0x6Fu8, 0x00u8,  // Disco
        0x46u8, 0x75u8, 0x6Eu8, 0x6Bu8, 0x00u8,  // Funk
        0x47u8, 0x72u8, 0x75u8, 0x6Eu8, 0x67u8, 0x65u8, 0x00u8,  // Grunge
        0x48u8, 0x69u8, 0x70u8, 0x2Du8, 0x48u8, 0x6Fu8, 0x70u8, 0x00u8,  // Hip-Hop
        0x4Au8, 0x61u8, 0x7Au8, 0x7Au8, 0x00u8,  // Jazz
        0x4Du8, 0x65u8, 0x74u8, 0x61u8, 0x6Cu8, 0x00u8,  // Metal
        0x4Eu8, 0x65u8, 0x77u8, 0x20u8, 0x41u8, 0x67u8, 0x65u8, 0x00u8,  // New Age
        0x4Fu8, 0x6Cu8, 0x64u8, 0x69u8, 0x65u8, 0x73u8, 0x00u8,  // Oldies
        0x4Fu8, 0x74u8, 0x68u8, 0x65u8, 0x72u8, 0x00u8,  // Other
        0x50u8, 0x6Fu8, 0x70u8, 0x00u8,  // Pop
        0x52u8, 0x26u8, 0x42u8, 0x00u8,  // R&B
        0x52u8, 0x61u8, 0x70u8, 0x00u8,  // Rap
        0x52u8, 0x65u8, 0x67u8, 0x67u8, 0x61u8, 0x65u8, 0x00u8,  // Reggae
        0x52u8, 0x6Fu8, 0x63u8, 0x6Bu8, 0x00u8,  // Rock
        0x54u8, 0x65u8, 0x63u8, 0x68u8, 0x6Eu8, 0x6Fu8, 0x00u8,  // Techno
        0x49u8, 0x6Eu8, 0x64u8, 0x75u8, 0x73u8, 0x74u8, 0x72u8, 0x69u8, 0x61u8, 0x6Cu8, 0x00u8,  // Industrial
        0x41u8, 0x6Cu8, 0x74u8, 0x65u8, 0x72u8, 0x6Eu8, 0x61u8, 0x74u8, 0x69u8, 0x76u8, 0x65u8, 0x00u8,  // Alternative
        0x53u8, 0x6Bu8, 0x61u8, 0x00u8,  // Ska
        0x44u8, 0x65u8, 0x61u8, 0x74u8, 0x68u8, 0x20u8, 0x4Du8, 0x65u8, 0x74u8, 0x61u8, 0x6Cu8, 0x00u8,  // Death Metal
        0x50u8, 0x72u8, 0x61u8, 0x6Eu8, 0x6Bu8, 0x73u8, 0x00u8,  // Pranks
        0x53u8, 0x6Fu8, 0x75u8, 0x6Eu8, 0x64u8, 0x74u8, 0x72u8, 0x61u8, 0x63u8, 0x6Bu8, 0x00u8,  // Soundtrack
        0x45u8, 0x75u8, 0x72u8, 0x6Fu8, 0x2Du8, 0x54u8, 0x65u8, 0x63u8, 0x68u8, 0x6Eu8, 0x6Fu8, 0x00u8,  // Euro-Techno
        0x41u8, 0x6Du8, 0x62u8, 0x69u8, 0x65u8, 0x6Eu8, 0x74u8, 0x00u8,  // Ambient
        0x54u8, 0x72u8, 0x69u8, 0x70u8, 0x2Du8, 0x48u8, 0x6Fu8, 0x70u8, 0x00u8,  // Trip-Hop
        0x56u8, 0x6Fu8, 0x63u8, 0x61u8, 0x6Cu8, 0x00u8,  // Vocal
        0x4Au8, 0x61u8, 0x7Au8, 0x7Au8, 0x2Bu8, 0x46u8, 0x75u8, 0x6Eu8, 0x6Bu8, 0x00u8,  // Jazz+Funk
        0x46u8, 0x75u8, 0x73u8, 0x69u8, 0x6Fu8, 0x6Eu8, 0x00u8,  // Fusion
        0x54u8, 0x72u8, 0x61u8, 0x6Eu8, 0x63u8, 0x65u8, 0x00u8,  // Trance
        0x43u8, 0x6Cu8, 0x61u8, 0x73u8, 0x73u8, 0x69u8, 0x63u8, 0x61u8, 0x6Cu8, 0x00u8,  // Classical
        0x49u8, 0x6Eu8, 0x73u8, 0x74u8, 0x72u8, 0x75u8, 0x6Du8, 0x65u8, 0x6Eu8, 0x74u8, 0x61u8, 0x6Cu8, 0x00u8,  // Instrumental
        0x41u8, 0x63u8, 0x69u8, 0x64u8, 0x00u8,  // Acid
        0x48u8, 0x6Fu8, 0x75u8, 0x73u8, 0x65u8, 0x00u8,  // House
        0x47u8, 0x61u8, 0x6Du8, 0x65u8, 0x00u8,  // Game
        0x53u8, 0x6Fu8, 0x75u8, 0x6Eu8, 0x64u8, 0x20u8, 0x43u8, 0x6Cu8, 0x69u8, 0x70u8, 0x00u8,  // Sound Clip
        0x47u8, 0x6Fu8, 0x73u8, 0x70u8, 0x65u8, 0x6Cu8, 0x00u8,  // Gospel
        0x4Eu8, 0x6Fu8, 0x69u8, 0x73u8, 0x65u8, 0x00u8,  // Noise
        0x41u8, 0x6Cu8, 0x74u8, 0x65u8, 0x72u8, 0x6Eu8, 0x52u8, 0x6Fu8, 0x63u8, 0x6Bu8, 0x00u8,  // AlternRock
        0x42u8, 0x61u8, 0x73u8, 0x73u8, 0x00u8,  // Bass
        0x53u8, 0x6Fu8, 0x75u8, 0x6Cu8, 0x00u8,  // Soul
        0x50u8, 0x75u8, 0x6Eu8, 0x6Bu8, 0x00u8,  // Punk
        0x53u8, 0x70u8, 0x61u8, 0x63u8, 0x65u8, 0x00u8,  // Space
        0x4Du8, 0x65u8, 0x64u8, 0x69u8, 0x74u8, 0x61u8, 0x74u8, 0x69u8, 0x76u8, 0x65u8, 0x00u8,  // Meditative
        0x49u8, 0x6Eu8, 0x73u8, 0x74u8, 0x72u8, 0x75u8, 0x6Du8, 0x65u8, 0x6Eu8, 0x74u8, 0x61u8, 0x6Cu8, 0x20u8, 0x50u8, 0x6Fu8, 0x70u8, 0x00u8,  // Instrumental Pop
        0x49u8, 0x6Eu8, 0x73u8, 0x74u8, 0x72u8, 0x75u8, 0x6Du8, 0x65u8, 0x6Eu8, 0x74u8, 0x61u8, 0x6Cu8, 0x20u8, 0x52u8, 0x6Fu8, 0x63u8, 0x6Bu8, 0x00u8,  // Instrumental Rock
        0x45u8, 0x74u8, 0x68u8, 0x6Eu8, 0x69u8, 0x63u8, 0x00u8,  // Ethnic
        0x47u8, 0x6Fu8, 0x74u8, 0x68u8, 0x69u8, 0x63u8, 0x00u8,  // Gothic
        0x44u8, 0x61u8, 0x72u8, 0x6Bu8, 0x77u8, 0x61u8, 0x76u8, 0x65u8, 0x00u8,  // Darkwave
        0x54u8, 0x65u8, 0x63u8, 0x68u8, 0x6Eu8, 0x6Fu8, 0x2Du8, 0x49u8, 0x6Eu8, 0x64u8, 0x75u8, 0x73u8, 0x74u8, 0x72u8, 0x69u8, 0x61u8, 0x6Cu8, 0x00u8,  // Techno-Industrial
        0x45u8, 0x6Cu8, 0x65u8, 0x63u8, 0x74u8, 0x72u8, 0x6Fu8, 0x6Eu8, 0x69u8, 0x63u8, 0x00u8,  // Electronic
        0x50u8, 0x6Fu8, 0x70u8, 0x2Du8, 0x46u8, 0x6Fu8, 0x6Cu8, 0x6Bu8, 0x00u8,  // Pop-Folk
        0x45u8, 0x75u8, 0x72u8, 0x6Fu8, 0x64u8, 0x61u8, 0x6Eu8, 0x63u8, 0x65u8, 0x00u8,  // Eurodance
        0x44u8, 0x72u8, 0x65u8, 0x61u8, 0x6Du8, 0x00u8,  // Dream
        0x53u8, 0x6Fu8, 0x75u8, 0x74u8, 0x68u8, 0x65u8, 0x72u8, 0x6Eu8, 0x20u8, 0x52u8, 0x6Fu8, 0x63u8, 0x6Bu8, 0x00u8,  // Southern Rock
        0x43u8, 0x6Fu8, 0x6Du8, 0x65u8, 0x64u8, 0x79u8, 0x00u8,  // Comedy
        0x43u8, 0x75u8, 0x6Cu8, 0x74u8, 0x00u8,  // Cult
        0x47u8, 0x61u8, 0x6Eu8, 0x67u8, 0x73u8, 0x74u8, 0x61u8, 0x00u8,  // Gangsta
        0x54u8, 0x6Fu8, 0x70u8, 0x20u8, 0x34u8, 0x30u8, 0x00u8,  // Top 40
        0x43u8, 0x68u8, 0x72u8, 0x69u8, 0x73u8, 0x74u8, 0x69u8, 0x61u8, 0x6Eu8, 0x20u8, 0x52u8, 0x61u8, 0x70u8, 0x00u8,  // Christian Rap
        0x50u8, 0x6Fu8, 0x70u8, 0x2Fu8, 0x46u8, 0x75u8, 0x6Eu8, 0x6Bu8, 0x00u8,  // Pop/Funk
        0x4Au8, 0x75u8, 0x6Eu8, 0x67u8, 0x6Cu8, 0x65u8, 0x00u8,  // Jungle
        0x4Eu8, 0x61u8, 0x74u8, 0x69u8, 0x76u8, 0x65u8, 0x20u8, 0x41u8, 0x6Du8, 0x65u8, 0x72u8, 0x69u8, 0x63u8, 0x61u8, 0x6Eu8, 0x00u8,  // Native American
        0x43u8, 0x61u8, 0x62u8, 0x61u8, 0x72u8, 0x65u8, 0x74u8, 0x00u8,  // Cabaret
        0x4Eu8, 0x65u8, 0x77u8, 0x20u8, 0x57u8, 0x61u8, 0x76u8, 0x65u8, 0x00u8,  // New Wave
        0x50u8, 0x73u8, 0x79u8, 0x63u8, 0x68u8, 0x61u8, 0x64u8, 0x65u8, 0x6Cu8, 0x69u8, 0x63u8, 0x00u8,  // Psychadelic
        0x52u8, 0x61u8, 0x76u8, 0x65u8, 0x00u8,  // Rave
        0x53u8, 0x68u8, 0x6Fu8, 0x77u8, 0x74u8, 0x75u8, 0x6Eu8, 0x65u8, 0x73u8, 0x00u8,  // Showtunes
        0x54u8, 0x72u8, 0x61u8, 0x69u8, 0x6Cu8, 0x65u8, 0x72u8, 0x00u8,  // Trailer
        0x4Cu8, 0x6Fu8, 0x2Du8, 0x46u8, 0x69u8, 0x00u8,  // Lo-Fi
        0x54u8, 0x72u8, 0x69u8, 0x62u8, 0x61u8, 0x6Cu8, 0x00u8,  // Tribal
        0x41u8, 0x63u8, 0x69u8, 0x64u8, 0x20u8, 0x50u8, 0x75u8, 0x6Eu8, 0x6Bu8, 0x00u8,  // Acid Punk
        0x41u8, 0x63u8, 0x69u8, 0x64u8, 0x20u8, 0x4Au8, 0x61u8, 0x7Au8, 0x7Au8, 0x00u8,  // Acid Jazz
        0x50u8, 0x6Fu8, 0x6Cu8, 0x6Bu8, 0x61u8, 0x00u8,  // Polka
        0x52u8, 0x65u8, 0x74u8, 0x72u8, 0x6Fu8, 0x00u8,  // Retro
        0x4Du8, 0x75u8, 0x73u8, 0x69u8, 0x63u8, 0x61u8, 0x6Cu8, 0x00u8,  // Musical
        0x52u8, 0x6Fu8, 0x63u8, 0x6Bu8, 0x20u8, 0x26u8, 0x20u8, 0x52u8, 0x6Fu8, 0x6Cu8, 0x6Cu8, 0x00u8,  // Rock & Roll
        0x48u8, 0x61u8, 0x72u8, 0x64u8, 0x20u8, 0x52u8, 0x6Fu8, 0x63u8, 0x6Bu8, 0x00u8,  // Hard Rock
    ]
}

fn genre_table_exec() -> (r: Vec<u8>)
    ensures
        r@ == genre_table(),
{
    let r: Vec<u8> = vec![
        0x42u8, 0x6Cu8, 0x75u8, 0x65u8, 0x73u8, 0x00u8,  // Blues
        0x43u8, 0x6Cu8, 0x61u8, 0x73u8, 0x73u8, 0x69u8, 0x63u8, 0x20u8, 0x52u8, 0x6Fu8, 0x63u8, 0x6Bu8, 0x00u8,  // Classic Rock
        0x43u8, 0x6Fu8, 0x75u8, 0x6Eu8, 0x74u8, 0x72u8, 0x79u8, 0x00u8,  // Country
        0x44u8, 0x61u8, 0x6Eu8, 0x63u8, 0x65u8, 0x00u8,  // Dance
        0x44u8, 0x69u8, 0x73u8, 0x63u8, 0x6Fu8, 0x00u8,  // Disco
        0x46u8, 0x75u8, 0x6Eu8, 0x6Bu8, 0x00u8,  // Funk
        0x47u8, 0x72u8, 0x75u8, 0x6Eu8, 0x67u8, 0x65u8, 0x00u8,  // Grunge
        0x48u8, 0x69u8, 0x70u8, 0x2Du8, 0x48u8, 0x6Fu8, 0x70u8, 0x00u8,  // Hip-Hop
        0x4Au8, 0x61u8, 0x7Au8, 0x7Au8, 0x00u8,  // Jazz
        0x4Du8, 0x65u8, 0x74u8, 0x61u8, 0x6Cu8, 0x00u8,  // Metal
        0x4Eu8, 0x65u8, 0x77u8, 0x20u8, 0x41u8, 0x67u8, 0x65u8, 0x00u8,  // New Age
        0x4Fu8, 0x6Cu8, 0x64u8, 0x69u8, 0x65u8, 0x73u8, 0x00u8,  // Oldies
        0x4Fu8, 0x74u8, 0x68u8, 0x65u8, 0x72u8, 0x00u8,  // Other
        0x50u8, 0x6Fu8, 0x70u8, 0x00u8,  // Pop
        0x52u8, 0x26u8, 0x42u8, 0x00u8,  // R&B
        0x52u8, 0x61u8, 0x70u8, 0x00u8,  // Rap
        0x52u8, 0x65u8, 0x67u8, 0x67u8, 0x61u8, 0x65u8, 0x00u8,  // Reggae
        0x52u8, 0x6Fu8, 0x63u8, 0x6Bu8, 0x00u8,  // Rock
        0x54u8, 0x65u8, 0x63u8, 0x68u8, 0x6Eu8, 0x6Fu8, 0x00u8,  // Techno
        0x49u8, 0x6Eu8, 0x64u8, 0x75u8, 0x73u8, 0x74u8, 0x72u8, 0x69u8, 0x61u8, 0x6Cu8, 0x00u8,  // Industrial
        0x41u8, 0x6Cu8, 0x74u8, 0x65u8, 0x72u8, 0x6Eu8, 0x61u8, 0x74u8, 0x69u8, 0x76u8, 0x65u8, 0x00u8,  // Alternative
        0x53u8, 0x6Bu8, 0x61u8, 0x00u8,  // Ska
        0x44u8, 0x65u8, 0x61u8, 0x74u8, 0x68u8, 0x20u8, 0x4Du8, 0x65u8, 0x74u8, 0x61u8, 0x6Cu8, 0x00u8,  // Death Metal
        0x50u8, 0x72u8, 0x61u8, 0x6Eu8, 0x6Bu8, 0x73u8, 0x00u8,  // Pranks
        0x53u8, 0x6Fu8, 0x75u8, 0x6Eu8, 0x64u8, 0x74u8, 0x72u8, 0x61u8, 0x63u8, 0x6Bu8, 0x00u8,  // Soundtrack
        0x45u8, 0x75u8, 0x72u8, 0x6Fu8, 0x2Du8, 0x54u8, 0x65u8, 0x63u8, 0x68u8, 0x6Eu8, 0x6Fu8, 0x00u8,  // Euro-Techno
        0x41u8, 0x6Du8, 0x62u8, 0x69u8, 0x65u8, 0x6Eu8, 0x74u8, 0x00u8,  // Ambient
        0x54u8, 0x72u8, 0x69u8, 0x70u8, 0x2Du8, 0x48u8, 0x6Fu8, 0x70u8, 0x00u8,  // Trip-Hop
        0x56u8, 0x6Fu8, 0x63u8, 0x61u8, 0x6Cu8, 0x00u8,  // Vocal
        0x4Au8, 0x61u8, 0x7Au8, 0x7Au8, 0x2Bu8, 0x46u8, 0x75u8, 0x6Eu8, 0x6Bu8, 0x00u8,  // Jazz+Funk
        0x46u8, 0x75u8, 0x73u8, 0x69u8, 0x6Fu8, 0x6Eu8, 0x00u8,  // Fusion
        0x54u8, 0x72u8, 0x61u8, 0x6Eu8, 0x63u8, 0x65u8, 0x00u8,  // Trance
        0x43u8, 0x6Cu8, 0x61u8, 0x73u8, 0x73u8, 0x69u8, 0x63u8, 0x61u8, 0x6Cu8, 0x00u8,  // Classical
        0x49u8, 0x6Eu8, 0x73u8, 0x74u8, 0x72u8, 0x75u8, 0x6Du8, 0x65u8, 0x6Eu8, 0x74u8, 0x61u8, 0x6Cu8, 0x00u8,  // Instrumental
        0x41u8, 0x63u8, 0x69u8, 0x64u8, 0x00u8,  // Acid
        0x48u8, 0x6Fu8, 0x75u8, 0x73u8, 0x65u8, 0x00u8,  // House
        0x47u8, 0x61u8, 0x6Du8, 0x65u8, 0x00u8,  // Game
        0x53u8, 0x6Fu8, 0x75u8, 0x6Eu8, 0x64u8, 0x20u8, 0x43u8, 0x6Cu8, 0x69u8, 0x70u8, 0x00u8,  // Sound Clip
        0x47u8, 0x6Fu8, 0x73u8, 0x70u8, 0x65u8, 0x6Cu8, 0x00u8,  // Gospel
        0x4Eu8, 0x6Fu8, 0x69u8, 0x73u8, 0x65u8, 0x00u8,  // Noise
        0x41u8, 0x6Cu8, 0x74u8, 0x65u8, 0x72u8, 0x6Eu8, 0x52u8, 0x6Fu8, 0x63u8, 0x6Bu8, 0x00u8,  // AlternRock
        0x42u8, 0x61u8, 0x73u8, 0x73u8, 0x00u8,  // Bass
        0x53u8, 0x6Fu8, 0x75u8, 0x6Cu8, 0x00u8,  // Soul
        0x50u8, 0x75u8, 0x6Eu8, 0x6Bu8, 0x00u8,  // Punk
        0x53u8, 0x70u8, 0x61u8, 0x63u8, 0x65u8, 0x00u8,  // Space
        0x4Du8, 0x65u8, 0x64u8, 0x69u8, 0x74u8, 0x61u8, 0x74u8, 0x69u8, 0x76u8, 0x65u8, 0x00u8,  // Meditative
        0x49u8, 0x6Eu8, 0x73u8, 0x74u8, 0x72u8, 0x75u8, 0x6Du8, 0x65u8, 0x6Eu8, 0x74u8, 0x61u8, 0x6Cu8, 0x20u8, 0x50u8, 0x6Fu8, 0x70u8, 0x00u8,  // Instrumental Pop
        0x49u8, 0x6Eu8, 0x73u8, 0x74u8, 0x72u8, 0x75u8, 0x6Du8, 0x65u8, 0x6Eu8, 0x74u8, 0x61u8, 0x6Cu8, 0x20u8, 0x52u8, 0x6Fu8, 0x63u8, 0x6Bu8, 0x00u8,  // Instrumental Rock
        0x45u8, 0x74u8, 0x68u8, 0x6Eu8, 0x69u8, 0x63u8, 0x00u8,  // Ethnic
        0x47u8, 0x6Fu8, 0x74u8, 0x68u8, 0x69u8, 0x63u8, 0x00u8,  // Gothic
        0x44u8, 0x61u8, 0x72u8, 0x6Bu8, 0x77u8, 0x61u8, 0x76u8, 0x65u8, 0x00u8,  // Darkwave
        0x54u8, 0x65u8, 0x63u8, 0x68u8, 0x6Eu8, 0x6Fu8, 0x2Du8, 0x49u8, 0x6Eu8, 0x64u8, 0x75u8, 0x73u8, 0x74u8, 0x72u8, 0x69u8, 0x61u8, 0x6Cu8, 0x00u8,  // Techno-Industrial
        0x45u8, 0x6Cu8, 0x65u8, 0x63u8, 0x74u8, 0x72u8, 0x6Fu8, 0x6Eu8, 0x69u8, 0x63u8, 0x00u8,  // Electronic
        0x50u8, 0x6Fu8, 0x70u8, 0x2Du8, 0x46u8, 0x6Fu8, 0x6Cu8, 0x6Bu8, 0x00u8,  // Pop-Folk
        0x45u8, 0x75u8, 0x72u8, 0x6Fu8, 0x64u8, 0x61u8, 0x6Eu8, 0x63u8, 0x65u8, 0x00u8,  // Eurodance
        0x44u8, 0x72u8, 0x65u8, 0x61u8, 0x6Du8, 0x00u8,  // Dream
        0x53u8, 0x6Fu8, 0x75u8, 0x74u8, 0x68u8, 0x65u8, 0x72u8, 0x6Eu8, 0x20u8, 0x52u8, 0x6Fu8, 0x63u8, 0x6Bu8, 0x00u8,  // Southern Rock
        0x43u8, 0x6Fu8, 0x6Du8, 0x65u8, 0x64u8, 0x79u8, 0x00u8,  // Comedy
        0x43u8, 0x75u8, 0x6Cu8, 0x74u8, 0x00u8,  // Cult
        0x47u8, 0x61u8, 0x6Eu8, 0x67u8, 0x73u8, 0x74u8, 0x61u8, 0x00u8,  // Gangsta
        0x54u8, 0x6Fu8, 0x70u8, 0x20u8, 0x34u8, 0x30u8, 0x00u8,  // Top 40
        0x43u8, 0x68u8, 0x72u8, 0x69u8, 0x73u8, 0x74u8, 0x69u8, 0x61u8, 0x6Eu8, 0x20u8, 0x52u8, 0x61u8, 0x70u8, 0x00u8,  // Christian Rap
        0x50u8, 0x6Fu8, 0x70u8, 0x2Fu8, 0x46u8, 0x75u8, 0x6Eu8, 0x6Bu8, 0x00u8,  // Pop/Funk
        0x4Au8, 0x75u8, 0x6Eu8, 0x67u8, 0x6Cu8, 0x65u8, 0x00u8,  // Jungle
        0x4Eu8, 0x61u8, 0x74u8, 0x69u8, 0x76u8, 0x65u8, 0x20u8, 0x41u8, 0x6Du8, 0x65u8, 0x72u8, 0x69u8, 0x63u8, 0x61u8, 0x6Eu8, 0x00u8,  // Native American
        0x43u8, 0x61u8, 0x62u8, 0x61u8, 0x72u8, 0x65u8, 0x74u8, 0x00u8,  // Cabaret
        0x4Eu8, 0x65u8, 0x77u8, 0x20u8, 0x57u8, 0x61u8, 0x76u8, 0x65u8, 0x00u8,  // New Wave
        0x50u8, 0x73u8, 0x79u8, 0x63u8, 0x68u8, 0x61u8, 0x64u8, 0x65u8, 0x6Cu8, 0x69u8, 0x63u8, 0x00u8,  // Psychadelic
        0x52u8, 0x61u8, 0x76u8, 0x65u8, 0x00u8,  // Rave
        0x53u8, 0x68u8, 0x6Fu8, 0x77u8, 0x74u8, 0x75u8, 0x6Eu8, 0x65u8, 0x73u8, 0x00u8,  // Showtunes
        0x54u8, 0x72u8, 0x61u8, 0x69u8, 0x6Cu8, 0x65u8, 0x72u8, 0x00u8,  // Trailer
        0x4Cu8, 0x6Fu8, 0x2Du8, 0x46u8, 0x69u8, 0x00u8,  // Lo-Fi
        0x54u8, 0x72u8, 0x69u8, 0x62u8, 0x61u8, 0x6Cu8, 0x00u8,  // Tribal
        0x41u8, 0x63u8, 0x69u8, 0x64u8, 0x20u8, 0x50u8, 0x75u8, 0x6Eu8, 0x6Bu8, 0x00u8,  // Acid Punk
        0x41u8, 0x63u8, 0x69u8, 0x64u8, 0x20u8, 0x4Au8, 0x61u8, 0x7Au8, 0x7Au8, 0x00u8,  // Acid Jazz
        0x50u8, 0x6Fu8, 0x6Cu8, 0x6Bu8, 0x61u8, 0x00u8,  // Polka
        0x52u8, 0x65u8, 0x74u8, 0x72u8, 0x6Fu8, 0x00u8,  // Retro
        0x4Du8, 0x75u8, 0x73u8, 0x69u8, 0x63u8, 0x61u8, 0x6Cu8, 0x00u8,  // Musical
        0x52u8, 0x6Fu8, 0x63u8, 0x6Bu8, 0x20u8, 0x26u8, 0x20u8, 0x52u8, 0x6Fu8, 0x6Cu8, 0x6Cu8, 0x00u8,  // Rock & Roll
        0x48u8, 0x61u8, 0x72u8, 0x64u8, 0x20u8, 0x52u8, 0x6Fu8, 0x63u8, 0x6Bu8, 0x00u8,  // Hard Rock
    ];
    reveal(genre_table);
    assert(r@ =~= genre_table());
    r
}

/// The bytes of `s` before its first zero byte.
pub open spec fn until_nul(s: Seq<u8>) -> Seq<u8>
    decreases s.len(),
{
    if s.len() == 0 || s[0] == 0 {
        Seq::empty()
    } else {
        seq![s[0]] + until_nul(s.subrange(1, s.len() as int))
    }
}

/// The bytes of `s` after its first zero byte; none where it has none.
pub open spec fn after_nul(s: Seq<u8>) -> Seq<u8>
    decreases s.len(),
{
    if s.len() == 0 {
        s
    } else if s[0] == 0 {
        s.subrange(1, s.len() as int)
    } else {
        after_nul(s.subrange(1, s.len() as int))
    }
}

/// The `g`-th of the zero-terminated names in `t`.
pub open spec fn nth_name(t: Seq<u8>, g: nat) -> Seq<u8>
    decreases g,
{
    if g == 0 { until_nul(t) } else { nth_name(after_nul(t), (g - 1) as nat) }
}

/// The name of genre `g`, where ID3v1 names one.
pub open spec fn genre_name(g: u8) -> Option<Seq<u8>> {
    if g < GENRE_COUNT { Some(nth_name(genre_table(), g as nat)) } else { None }
}

/// The code points of the Latin1 bytes `s`.
pub open spec fn latin1_points(s: Seq<u8>) -> Seq<u32> {
    s.map_values(|b: u8| b as u32)
}

/// The code points of the bytes of `t` from `at` up to the first zero byte.
pub fn points_until_nul(t: &[u8], at: usize) -> (r: Vec<u32>)
    requires
        at <= t@.len(),
    ensures
        r@ == latin1_points(until_nul(t@.subrange(at as int, t@.len() as int))),
{
    let n = t.len();
    let ghost w = t@.subrange(at as int, n as int);
    let mut r: Vec<u32> = Vec::new();
    let mut k: usize = at;
    assert(r@ + latin1_points(until_nul(w)) =~= latin1_points(until_nul(w)));
    while k < n && t[k] != 0
        invariant
            at <= k <= n,
            n == t@.len(),
            w == t@.subrange(at as int, n as int),
            r@ + latin1_points(until_nul(t@.subrange(k as int, n as int))) == latin1_points(until_nul(w)),
        decreases n - k,
    {
        let ghost u = t@.subrange(k as int, n as int);
        assert(u.subrange(1, u.len() as int) =~= t@.subrange(k + 1, n as int));
        let ghost rest = latin1_points(until_nul(t@.subrange(k + 1, n as int)));
        let ghost before = r@;
        r.push(t[k] as u32);
        assert(latin1_points(seq![u[0]] + until_nul(u.subrange(1, u.len() as int))) =~= seq![t@[k as int] as u32] + rest);
        assert(before + (seq![t@[k as int] as u32] + rest) =~= r@ + rest);
        k = k + 1;
    }
    assert(latin1_points(until_nul(t@.subrange(k as int, n as int))) =~= Seq::<u32>::empty());
    assert(r@ + Seq::<u32>::empty() =~= r@);
    r
}

fn skip_name(t: &[u8], at: usize) -> (r: usize)
    requires
        at <= t@.len(),
    ensures
        at <= r <= t@.len(),
        t@.subrange(r as int, t@.len() as int) == after_nul(t@.subrange(at as int, t@.len() as int)),
{
    let n = t.len();
    let mut k: usize = at;
    while k < n && t[k] != 0
        invariant
            at <= k <= n,
            n == t@.len(),
            after_nul(t@.subrange(k as int, n as int)) == after_nul(t@.subrange(at as int, n as int)),
        decreases n - k,
    {
        let ghost u = t@.subrange(k as int, n as int);
        assert(u.subrange(1, u.len() as int) =~= t@.subrange(k + 1, n as int));
        k = k + 1;
    }
    if k < n {
        let ghost u = t@.subrange(k as int, n as int);
        assert(u.subrange(1, u.len() as int) =~= t@.subrange(k + 1, n as int));
        k + 1
    } else {
        k
    }
}

/// The name of genre `g` as code points, where ID3v1 names one.
pub fn genre_points(g: u8) -> (r: Option<Vec<u32>>)
    ensures
        r is Some <==> genre_name(g) is Some,
        r is Some ==> r->0@ == latin1_points(genre_name(g)->0),
{
    if g >= GENRE_COUNT {
        return None;
    }
    let t = genre_table_exec();
    let n = t.len();
    let mut pos: usize = 0;
    let mut k: u8 = 0;
    assert(t@.subrange(0, n as int) =~= t@);
    while k < g
        invariant
            k <= g,
            pos <= n,
            n == t@.len(),
            t@ == genre_table(),
            nth_name(t@.subrange(pos as int, n as int), (g - k) as nat) == nth_name(genre_table(), g as nat),
        decreases g - k,
    {
        pos = skip_name(t.as_slice(), pos);
        k = k + 1;
    }
    Some(points_until_nul(t.as_slice(), pos))
}

} // verus!
