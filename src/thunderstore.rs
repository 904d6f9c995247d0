use vstd::prelude::*;
use vstd::string::*;

verus! {

/// A package's full name: a namespace and a name joined by the first hyphen.
pub struct FullName {
    value: String,
    split: usize,
}

impl Clone for FullName {
    fn clone(&self) -> (r: Self)
        ensures
            r@ == self@,
            r.split_index() == self.split_index(),
    {
        proof {
            use_type_invariant(self);
        }
        FullName { value: self.value.clone(), split: self.split }
    }
}

/// Whether `i` is the position of the first hyphen of `s`.
pub open spec fn is_first_hyphen(s: Seq<char>, i: int) -> bool {
    0 <= i < s.len() && s[i] == '-' && forall|j: int| 0 <= j < i ==> s[j] != '-'
}

impl View for FullName {
    type V = Seq<char>;

    closed spec fn view(&self) -> Seq<char> {
        self.value@
    }
}

impl FullName {
    #[verifier::type_invariant]
    spec fn split_at_first_hyphen(&self) -> bool {
        is_first_hyphen(self.value@, self.split as int)
    }

    /// Where the namespace ends: the position of the first hyphen.
    pub closed spec fn split_index(&self) -> int {
        self.split as int
    }

    /// The full name written as `s`, which holds a hyphen.
    pub fn parse(s: &str) -> (r: Option<FullName>)
        ensures
            r is None <==> !s@.contains('-'),
            r matches Some(f) ==> f@ == s@ && is_first_hyphen(s@, f.split_index()),
    {
        let n = s.unicode_len();
        let mut i: usize = 0;
        while i < n
            invariant
                n == s@.len(),
                i <= n,
                forall|j: int| 0 <= j < i ==> s@[j] != '-',
            decreases n - i,
        {
            if s.get_char(i) == '-' {
                let value = String::from_str(s);
                assert(is_first_hyphen(value@, i as int));
                return Some(FullName { value, split: i });
            }
            i = i + 1;
        }
        None
    }

    pub fn namespace(&self) -> (r: &str)
        ensures
            r@ == self@.subrange(0, self.split_index()),
            !r@.contains('-'),
    {
        proof {
            use_type_invariant(self);
        }
        let r = self.value.as_str().substring_char(0, self.split);
        assert forall|j: int| 0 <= j < r@.len() implies r@[j] != '-' by {
            assert(r@[j] == self.value@[j]);
        }
        r
    }

    pub fn name(&self) -> (r: &str)
        ensures
            r@ == self@.subrange(self.split_index() + 1, self@.len() as int),
            self@ == self@.subrange(0, self.split_index()) + seq!['-'] + r@,
    {
        proof {
            use_type_invariant(self);
        }
        let s = self.value.as_str();
        let n = s.unicode_len();
        let r = s.substring_char(self.split + 1, n);
        assert(self.value@ =~= self.value@.subrange(0, self.split as int) + seq!['-'] + r@);
        r
    }

    pub fn components(&self) -> (r: (&str, &str))
        ensures
            r.0@ == self@.subrange(0, self.split_index()),
            r.1@ == self@.subrange(self.split_index() + 1, self@.len() as int),
    {
        (self.namespace(), self.name())
    }

    /// The full name as written.
    pub fn as_str(&self) -> (r: &str)
        ensures
            r@ == self@,
    {
        self.value.as_str()
    }

    pub fn into_string(self) -> (r: String)
        ensures
            r@ == self@,
    {
        self.value
    }
}

/// The decimal digits of `n`, most significant first.
pub open spec fn decimal(n: nat) -> Seq<char>
    decreases n,
{
    if n < 10 {
        seq![(n + 48) as char]
    } else {
        decimal(n / 10).push(((n % 10) + 48) as char)
    }
}

/// The decimal digit `d` as a string.
fn digit_str(d: u64) -> (r: &'static str)
    requires
        d < 10,
    ensures
        r@ == seq![(d + 48) as char],
{
    proof {
        reveal_strlit("0");
        reveal_strlit("1");
        reveal_strlit("2");
        reveal_strlit("3");
        reveal_strlit("4");
        reveal_strlit("5");
        reveal_strlit("6");
        reveal_strlit("7");
        reveal_strlit("8");
        reveal_strlit("9");
    }
    match d {
        0 => "0",
        1 => "1",
        2 => "2",
        3 => "3",
        4 => "4",
        5 => "5",
        6 => "6",
        7 => "7",
        8 => "8",
        _ => "9",
    }
}

/// Appends `n` in decimal to `s`.
fn write_decimal(n: u64, s: &mut String)
    ensures
        final(s)@ == old(s)@ + decimal(n as nat),
    decreases n,
{
    if n >= 10 {
        write_decimal(n / 10, s);
    }
    s.append(digit_str(n % 10));
    proof {
        if n >= 10 {
            assert(decimal(n as nat) == decimal((n / 10) as nat).push(((n % 10) + 48) as char));
        }
    }
    assert(s@ =~= old(s)@ + decimal(n as nat));
}

/// A package version.
#[derive(Debug, Clone, Copy, PartialEq, Eq, Structural)]
pub struct Version {
    pub major: u64,
    pub minor: u64,
    pub patch: u64,
}

impl Version {
    /// The version as `major.minor.patch`.
    pub fn to_string(&self) -> (r: String)
        ensures
            r@ == decimal(self.major as nat) + "."@ + decimal(self.minor as nat) + "."@ + decimal(
                self.patch as nat,
            ),
    {
        let mut s = String::new();
        write_decimal(self.major, &mut s);
        s.append(".");
        write_decimal(self.minor, &mut s);
        s.append(".");
        write_decimal(self.patch, &mut s);
        s
    }
}

/// The manifest of a shared profile.
pub struct ProfileManifest {
    pub profile_name: String,
    pub mods: Vec<ProfileMod>,
}

/// One package of a shared profile.
pub struct ProfileMod {
    pub full_name: FullName,
    pub version: Version,
    pub enabled: bool,
}

/// Name of the manifest file inside a profile archive.
pub const R2_PROFILE_MANIFEST_FILE_NAME: &'static str = "export.r2x";

/// The line that shared profile data starts with: `#r2modman` and a newline.
pub open spec fn profile_data_prefix() -> Seq<u8> {
    seq![35u8, 114u8, 50u8, 109u8, 111u8, 100u8, 109u8, 97u8, 110u8, 10u8]
}

/// A name for what standard base64 decoding (with padding) makes of some bytes:
/// `None` where they are not valid base64.
pub uninterp spec fn base64_standard_decoded(b: Seq<u8>) -> Option<Seq<u8>>;

#[verifier::external_type_specification]
#[verifier::external_body]
pub struct ExDecodeError(base64::DecodeError);

/// Relies on base64's `Engine::decode` with the standard alphabet and padding.
#[verifier::external_body]
fn decode_base64(b: &[u8]) -> (r: Result<Vec<u8>, base64::DecodeError>)
    ensures
        r is Ok <==> base64_standard_decoded(b@) is Some,
        r matches Ok(v) ==> base64_standard_decoded(b@) == Some(v@),
{
    base64::Engine::decode(&base64::prelude::BASE64_STANDARD, b)
}

/// Why shared profile data cannot be read.
#[derive(Debug, Clone, Copy, PartialEq, Eq, Structural)]
pub enum ProfileDataError {
    /// The data is shorter than its first line.
    Truncated,
    /// The data does not start with the expected line.
    InvalidPrefix,
    /// What follows the first line is not base64.
    InvalidBase64,
}

/// The archive held in shared profile data: the first line is checked and the
/// rest decoded from base64.
pub fn decode_profile_data(data: &[u8]) -> (r: Result<Vec<u8>, ProfileDataError>)
    ensures
        data@.len() < 10 ==> r == Err::<Vec<u8>, ProfileDataError>(ProfileDataError::Truncated),
        data@.len() >= 10 && data@.subrange(0, 10) != profile_data_prefix() ==> r == Err::<
            Vec<u8>,
            ProfileDataError,
        >(ProfileDataError::InvalidPrefix),
        data@.len() >= 10 && data@.subrange(0, 10) == profile_data_prefix() ==> match base64_standard_decoded(
            data@.subrange(10, data@.len() as int),
        ) {
            None => r == Err::<Vec<u8>, ProfileDataError>(ProfileDataError::InvalidBase64),
            Some(v) => r matches Ok(w) && w@ == v,
        },
{
    if data.len() < 10 {
        return Err(ProfileDataError::Truncated);
    }
    let prefix: [u8; 10] = [35, 114, 50, 109, 111, 100, 109, 97, 110, 10];
    assert(prefix@ == profile_data_prefix());
    let mut i: usize = 0;
    while i < 10
        invariant
            i <= 10,
            data@.len() >= 10,
            prefix@ == profile_data_prefix(),
            forall|j: int| 0 <= j < i ==> data@[j] == prefix@[j],
        decreases 10 - i,
    {
        if data[i] != prefix[i] {
            assert(data@.subrange(0, 10)[i as int] != profile_data_prefix()[i as int]);
            return Err(ProfileDataError::InvalidPrefix);
        }
        i = i + 1;
    }
    assert(data@.subrange(0, 10) =~= profile_data_prefix());
    let rest = vstd::slice::slice_subrange(data, 10, data.len());
    match decode_base64(rest) {
        Ok(v) => Ok(v),
        Err(_) => Err(ProfileDataError::InvalidBase64),
    }
}

} // verus!
