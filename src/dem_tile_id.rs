//! The identifier of a one-degree DEM tile and its name, such as `N54E168`.
use crate::text::{decimal, parse_i16_in, parse_i16_spec, push_decimal, string_from_chars};
use vstd::prelude::*;
use vstd::string::StrSliceExecFns;
use vstd::utf8::is_ascii_chars;

verus! {

/// The hemisphere letter `c` is `upper`, in either case.
pub open spec fn letter_is(c: char, upper: char, lower: char) -> bool {
    c == upper || c == lower
}

/// How a tile name is read: seven ASCII characters, with the latitude in
/// characters 1 and 2 and the longitude in characters 4 to 6, both read as
/// `i16::from_str` reads them. The latitude is north when character 0 is `N`
/// (either case) and south otherwise; the longitude east when character 3 is
/// `E` (either case) and west otherwise. Gives (longitude, latitude).
pub open spec fn tile_id_spec(s: Seq<char>) -> Result<(int, int), Seq<char>> {
    if !is_ascii_chars(s) || s.len() != 7 {
        Err("Invalid tile ID length"@)
    } else {
        match parse_i16_spec(s.subrange(1, 3)) {
            None => Err("Failed to parse latitude"@),
            Some(lat) => match parse_i16_spec(s.subrange(4, 7)) {
                None => Err("Failed to parse longitude"@),
                Some(lon) => Ok(
                    (
                        if letter_is(s[3], 'E', 'e') {
                            lon
                        } else {
                            -lon
                        },
                        if letter_is(s[0], 'N', 'n') {
                            lat
                        } else {
                            -lat
                        },
                    ),
                ),
            },
        }
    }
}

pub open spec fn abs(v: int) -> nat {
    if v < 0 {
        (-v) as nat
    } else {
        v as nat
    }
}

/// The name of a tile: `N` or `S`, the latitude's magnitude, `E` or `W`, the
/// longitude's magnitude, in decimal without padding.
pub open spec fn tile_id_name(lon: int, lat: int) -> Seq<char> {
    seq![
        if lat >= 0 {
            'N'
        } else {
            'S'
        },
    ] + decimal(abs(lat)) + seq![
        if lon >= 0 {
            'E'
        } else {
            'W'
        },
    ] + decimal(abs(lon))
}

#[derive(Copy, Clone, Debug)]
pub struct DemTileId {
    pub lon: i16,
    pub lat: i16,
}

impl DemTileId {
    pub fn new(lon: i16, lat: i16) -> (r: Self)
        ensures
            r.lon == lon,
            r.lat == lat,
    {
        DemTileId { lon, lat }
    }

    /// Reads a tile name such as `N54E168` or `s54w168`.
    pub fn parse(tile_name: &str) -> (r: Result<Self, String>)
        ensures
            match tile_id_spec(tile_name@) {
                Ok((lon, lat)) => r matches Ok(id) && id.lon == lon && id.lat == lat,
                Err(message) => r matches Err(e) && e@ == message,
            },
    {
        proof {
            reveal_strlit("Invalid tile ID length");
            reveal_strlit("Failed to parse latitude");
            reveal_strlit("Failed to parse longitude");
        }
        if !tile_name.is_ascii() || tile_name.unicode_len() != 7 {
            return Err("Invalid tile ID length".to_owned());
        }
        let lat = match parse_i16_in(tile_name, 1, 3) {
            Some(v) => v,
            None => {
                return Err("Failed to parse latitude".to_owned());
            },
        };
        let lon = match parse_i16_in(tile_name, 4, 7) {
            Some(v) => v,
            None => {
                return Err("Failed to parse longitude".to_owned());
            },
        };
        proof {
            crate::text::lemma_short_parse_bound(tile_name@.subrange(1, 3));
            crate::text::lemma_short_parse_bound(tile_name@.subrange(4, 7));
        }
        let east = tile_name.get_char(3);
        let north = tile_name.get_char(0);
        let lon = if east == 'E' || east == 'e' {
            lon
        } else {
            -lon
        };
        let lat = if north == 'N' || north == 'n' {
            lat
        } else {
            -lat
        };
        Ok(DemTileId { lon, lat })
    }

    /// The tile's name, such as `N54E168`.
    pub fn to_string(&self) -> (r: String)
        ensures
            r@ == tile_id_name(self.lon as int, self.lat as int),
    {
        let mut chars: Vec<char> = Vec::new();
        chars.push(
            if self.lat >= 0 {
                'N'
            } else {
                'S'
            },
        );
        let lat_abs: u32 = if self.lat < 0 {
            (-(self.lat as i32)) as u32
        } else {
            self.lat as u32
        };
        push_decimal(&mut chars, lat_abs);
        chars.push(
            if self.lon >= 0 {
                'E'
            } else {
                'W'
            },
        );
        let lon_abs: u32 = if self.lon < 0 {
            (-(self.lon as i32)) as u32
        } else {
            self.lon as u32
        };
        push_decimal(&mut chars, lon_abs);
        proof {
            assert(chars@ =~= tile_id_name(self.lon as int, self.lat as int));
        }
        string_from_chars(&chars)
    }
}

impl std::str::FromStr for DemTileId {
    type Err = String;

    fn from_str(tile_name: &str) -> Result<Self, Self::Err> {
        DemTileId::parse(tile_name)
    }
}

} // verus!
