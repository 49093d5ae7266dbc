//! Legal advisors and their ratings.

use vstd::prelude::*;
use crate::codec::{kinds_of, pop_text, pop_word32, pop_word64, values_of, Field, FieldValue, Kind};
use crate::ordering::Ranked;
use crate::region::RegionId;
use crate::search::Searchable;
use crate::record::Record;

verus! {

/// A rating: a single-precision floating-point number, held as its IEEE 754
/// bit pattern.
///
/// The top bit is the sign and the other 31 bits are the magnitude. A
/// magnitude above that of infinity, `0x7f80_0000`, is no number. Among
/// numbers, a greater [`Rating::height`] is a greater number, and the two
/// zeros are of one height.
#[derive(Clone, Copy, Debug, PartialEq, Eq)]
pub struct Rating {
    pub bits: u32,
}

impl Default for Rating {
    /// The rating zero.
    fn default() -> (rating: Self)
        ensures
            rating.bits == 0,
    {
        Rating { bits: 0 }
    }
}

/// The magnitude of infinity.
pub const INFINITY_MAGNITUDE: u32 = 0x7f80_0000;

/// The rank of a rating that is no number.
pub const UNRATED_RANK: u64 = 0xffff_ffff;

impl Rating {
    /// The bit pattern without the sign.
    pub open spec fn magnitude(self) -> int {
        if self.bits >= 0x8000_0000 {
            self.bits - 0x8000_0000
        } else {
            self.bits as int
        }
    }

    /// The rating is a number, finite or infinite.
    pub open spec fn is_number(self) -> bool {
        self.magnitude() <= INFINITY_MAGNITUDE
    }

    /// An integer that orders numbers as their values do.
    pub open spec fn height(self) -> int {
        if self.bits >= 0x8000_0000 {
            -self.magnitude()
        } else {
            self.magnitude()
        }
    }

    /// The place of the rating in a listing from the highest rating down:
    /// a lower rank comes first. The highest number has rank 0, and what is
    /// no number ranks after every number.
    pub open spec fn rank(self) -> u64 {
        if self.is_number() {
            (INFINITY_MAGNITUDE - self.height()) as u64
        } else {
            UNRATED_RANK
        }
    }

    /// The rating with the given bit pattern.
    pub fn from_bits(bits: u32) -> (rating: Rating)
        ensures
            rating.bits == bits,
    {
        Rating { bits }
    }

    /// The bit pattern of the rating.
    pub fn to_bits(self) -> (bits: u32)
        ensures
            bits == self.bits,
    {
        self.bits
    }

    /// Computes [`Rating::rank`].
    pub fn descending_rank(self) -> (rank: u64)
        ensures
            rank == self.rank(),
    {
        let negative = self.bits >= 0x8000_0000;
        let magnitude: u32 = if negative {
            self.bits - 0x8000_0000
        } else {
            self.bits
        };
        if magnitude > INFINITY_MAGNITUDE {
            UNRATED_RANK
        } else if negative {
            INFINITY_MAGNITUDE as u64 + magnitude as u64
        } else {
            (INFINITY_MAGNITUDE - magnitude) as u64
        }
    }
}

/// Of two numbers, the higher one has the lower rank, and numbers of one
/// height have one rank. What is no number ranks after every number.
pub proof fn lemma_rank_orders_ratings(a: Rating, b: Rating)
    ensures
        a.is_number() && b.is_number() ==> (a.height() > b.height() <==> a.rank() < b.rank()),
        a.is_number() && b.is_number() ==> (a.height() == b.height() <==> a.rank() == b.rank()),
        a.is_number() && !b.is_number() ==> a.rank() < b.rank(),
        !a.is_number() && !b.is_number() ==> a.rank() == b.rank(),
{
}

/// An advisor.
#[derive(Clone, Debug, PartialEq, Eq)]
pub struct LegalAdvisor {
    pub id: u64,
    pub name: String,
    pub credentials: String,
    pub rating: Rating,
}

/// What a [`LegalAdvisor`] holds, as a mathematical value.
pub struct AdvisorView {
    pub id: u64,
    pub name: Seq<char>,
    pub credentials: Seq<char>,
    pub rating: Rating,
}

impl View for LegalAdvisor {
    type V = AdvisorView;

    open spec fn view(&self) -> AdvisorView {
        AdvisorView {
            id: self.id,
            name: self.name@,
            credentials: self.credentials@,
            rating: self.rating,
        }
    }
}

impl Default for LegalAdvisor {
    /// The advisor with id 0 and rating zero, with no name and no
    /// credentials.
    fn default() -> (advisor: Self)
        ensures
            advisor@ == (AdvisorView {
                id: 0,
                name: Seq::empty(),
                credentials: Seq::empty(),
                rating: Rating { bits: 0 },
            }),
    {
        LegalAdvisor {
            id: 0,
            name: String::new(),
            credentials: String::new(),
            rating: Rating { bits: 0 },
        }
    }
}

impl Record for LegalAdvisor {
    open spec fn tag() -> u8 {
        2
    }

    open spec fn schema() -> Seq<Kind> {
        seq![Kind::Word64, Kind::Text, Kind::Text, Kind::Word32]
    }

    open spec fn fields(value: AdvisorView) -> Seq<FieldValue> {
        seq![
            FieldValue::Word64(value.id),
            FieldValue::Text(value.name),
            FieldValue::Text(value.credentials),
            FieldValue::Word32(value.rating.bits),
        ]
    }

    open spec fn key(value: AdvisorView) -> u64 {
        value.id
    }

    open spec fn label() -> Seq<char> {
        "Legal advisor"@
    }

    open spec fn region() -> RegionId {
        RegionId::Advisors
    }

    fn tag_byte() -> (tag: u8) {
        2
    }

    fn kinds() -> (kinds: Vec<Kind>) {
        let kinds = vec![Kind::Word64, Kind::Text, Kind::Text, Kind::Word32];
        assert(kinds@ =~= Self::schema());
        kinds
    }

    fn name() -> (name: &'static str) {
        "Legal advisor"
    }

    fn region_id() -> (region: RegionId) {
        RegionId::Advisors
    }

    fn key_of(&self) -> (key: u64) {
        self.id
    }

    fn to_fields(&self) -> (fields: Vec<Field>) {
        let mut fields: Vec<Field> = Vec::new();
        fields.push(Field::Word64(self.id));
        fields.push(Field::Text(self.name.clone()));
        fields.push(Field::Text(self.credentials.clone()));
        fields.push(Field::Word32(self.rating.bits));
        assert(values_of(fields@) =~= Self::fields(self@));
        fields
    }

    fn from_fields(fields: Vec<Field>) -> (record: Self) {
        let mut fields = fields;
        let ghost values = values_of(fields@);
        assert(values.len() == kinds_of(values).len());
        assert(forall|i: int| 0 <= i < 4 ==> kinds_of(values)[i] == Self::schema()[i]);
        assert(forall|i: int| 0 <= i < 4 ==> values[i] == fields@[i]@);
        let bits = pop_word32(&mut fields);
        let credentials = pop_text(&mut fields);
        let name = pop_text(&mut fields);
        let id = pop_word64(&mut fields);
        let record = LegalAdvisor { id, name, credentials, rating: Rating { bits } };
        assert(Self::fields(record@) =~= values);
        record
    }

    proof fn lemma_schema(value: AdvisorView) {
        assert(kinds_of(Self::fields(value)) =~= Self::schema());
    }

    proof fn lemma_fields_injective(a: AdvisorView, b: AdvisorView) {
        let fa = Self::fields(a);
        let fb = Self::fields(b);
        assert(fa[0] == fb[0]);
        assert(fa[1] == fb[1]);
        assert(fa[2] == fb[2]);
        assert(fa[3] == fb[3]);
    }
}

/// Advisors are ordered by rating, highest first.
impl Ranked for LegalAdvisor {
    open spec fn rank(value: AdvisorView) -> u64 {
        value.rating.rank()
    }

    fn rank_of(&self) -> (rank: u64) {
        self.rating.descending_rank()
    }
}

/// Advisors are searched by name.
impl Searchable for LegalAdvisor {
    open spec fn searched(value: AdvisorView) -> Seq<char> {
        value.name
    }

    fn searched_text(&self) -> (text: &str) {
        self.name.as_str()
    }
}

} // verus!
