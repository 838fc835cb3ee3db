//! Connection parameters: the pieces of a database URL, the interactive
//! field-by-field parser behind the credential prompt, and the URL
//! rendering. The prompting loop itself — reading lines, printing — lives
//! in the binary; each answer is handed here as a plain string.

use vstd::prelude::*;

use crate::digits::{all_digits, dec_rep, dec_val, parse_port, u16_to_dec};
use crate::error::MigrError;
use crate::text::{find_char, str_eq, str_find_char};

verus! {

/// Which connection field the interactive parser asks for next. The
/// fields form a fixed sequence; `Done` ends it.
#[derive(Debug, Clone, Copy, PartialEq, Eq, Structural)]
pub enum ParserState {
    /// Asking for the host.
    Host,
    /// Asking for the port.
    Port,
    /// Asking for the user.
    User,
    /// Asking for the database name.
    DB,
    /// Asking for the password.
    PW,
    /// All fields read.
    Done,
}

/// The state after one answered prompt.
pub open spec fn spec_next(s: ParserState) -> ParserState {
    match s {
        ParserState::Host => ParserState::Port,
        ParserState::Port => ParserState::User,
        ParserState::User => ParserState::DB,
        ParserState::DB => ParserState::PW,
        ParserState::PW => ParserState::Done,
        ParserState::Done => ParserState::Done,
    }
}

/// Connection parameters of the database, and where the interactive
/// parser stands.
#[derive(Debug)]
pub struct Postgres {
    /// Host name.
    pub host: String,
    /// Port.
    pub port: u16,
    /// User name.
    pub user: String,
    /// Database name.
    pub database: String,
    /// Password.
    pub password: String,
    /// Which field the interactive parser asks for next.
    pub state: ParserState,
}

/// The URL without its scheme prefix, when one is present.
pub open spec fn url_rest(u: Seq<char>) -> Seq<char> {
    if u.len() >= 11 && u.take(11) == "postgres://"@ {
        u.skip(11)
    } else {
        u
    }
}

/// The five segments of a connection URL after the scheme:
/// user, password, host, port digits, database.
pub open spec fn url_parts(u: Seq<char>) -> (Seq<char>, Seq<char>, Seq<char>, Seq<char>, Seq<
    char,
>) {
    let rest = url_rest(u);
    let c1 = find_char(rest, ':');
    let a1 = rest.skip(c1 + 1);
    let c2 = find_char(a1, '@');
    let a2 = a1.skip(c2 + 1);
    let c3 = find_char(a2, ':');
    let a3 = a2.skip(c3 + 1);
    let c4 = find_char(a3, '/');
    (rest.take(c1), a1.take(c2), a2.take(c3), a3.take(c4), a3.skip(c4 + 1))
}

/// A URL reads as `user:password@host:port/database`, scheme optional,
/// with a port that fits.
pub open spec fn spec_url_well_formed(u: Seq<char>) -> bool {
    let rest = url_rest(u);
    let c1 = find_char(rest, ':');
    let a1 = rest.skip(c1 + 1);
    let c2 = find_char(a1, '@');
    let a2 = a1.skip(c2 + 1);
    let c3 = find_char(a2, ':');
    let a3 = a2.skip(c3 + 1);
    let c4 = find_char(a3, '/');
    let port_seg = a3.take(c4);
    &&& c1 >= 0
    &&& c2 >= 0
    &&& c3 >= 0
    &&& c4 >= 0
    &&& port_seg.len() > 0
    &&& all_digits(port_seg)
    &&& dec_val(port_seg) <= u16::MAX
}

/// Reads a connection URL into its parts, if it is well formed.
pub fn parse_url(url: &str) -> (r: Option<Postgres>)
    ensures
        (r is Some) <==> spec_url_well_formed(url@),
        match r {
            Some(p) => {
                let (us, pw, ho, po, db) = url_parts(url@);
                &&& p.user@ == us
                &&& p.password@ == pw
                &&& p.host@ == ho
                &&& p.port as int == dec_val(po)
                &&& p.database@ == db
                &&& p.state == ParserState::Host
            },
            None => true,
        },
{
    let url_len = url.unicode_len();
    let rest: &str = if url_len >= 11 {
        let prefix = url.substring_char(0, 11);
        if str_eq(prefix, "postgres://") {
            proof {
                assert(prefix@ =~= url@.take(11));
            }
            url.substring_char(11, url_len)
        } else {
            proof {
                assert(prefix@ =~= url@.take(11));
            }
            url
        }
    } else {
        url
    };
    proof {
        assert(rest@ =~= url_rest(url@));
    }
    let rest_len = rest.unicode_len();
    let c1 = match str_find_char(rest, ':') {
        Some(c) => c,
        None => {
            return None;
        },
    };
    let user = rest.substring_char(0, c1);
    let a1 = rest.substring_char(c1 + 1, rest_len);
    proof {
        assert(user@ =~= url_rest(url@).take(c1 as int));
        assert(a1@ =~= url_rest(url@).skip(c1 + 1));
    }
    let a1_len = a1.unicode_len();
    let c2 = match str_find_char(a1, '@') {
        Some(c) => c,
        None => {
            return None;
        },
    };
    let password = a1.substring_char(0, c2);
    let a2 = a1.substring_char(c2 + 1, a1_len);
    proof {
        assert(password@ =~= a1@.take(c2 as int));
        assert(a2@ =~= a1@.skip(c2 + 1));
    }
    let a2_len = a2.unicode_len();
    let c3 = match str_find_char(a2, ':') {
        Some(c) => c,
        None => {
            return None;
        },
    };
    let host = a2.substring_char(0, c3);
    let a3 = a2.substring_char(c3 + 1, a2_len);
    proof {
        assert(host@ =~= a2@.take(c3 as int));
        assert(a3@ =~= a2@.skip(c3 + 1));
    }
    let a3_len = a3.unicode_len();
    let c4 = match str_find_char(a3, '/') {
        Some(c) => c,
        None => {
            return None;
        },
    };
    let port_seg = a3.substring_char(0, c4);
    let database = a3.substring_char(c4 + 1, a3_len);
    proof {
        assert(port_seg@ =~= a3@.take(c4 as int));
        assert(database@ =~= a3@.skip(c4 + 1));
    }
    let port = match parse_port(port_seg) {
        Some(v) => v,
        None => {
            return None;
        },
    };
    Some(
        Postgres {
            host: host.to_owned(),
            port,
            user: user.to_owned(),
            database: database.to_owned(),
            password: password.to_owned(),
            state: ParserState::Host,
        },
    )
}

/// Whether a connection URL is well formed enough to read.
pub fn url_well_formed(url: &str) -> (b: bool)
    ensures
        b == spec_url_well_formed(url@),
{
    parse_url(url).is_some()
}

impl Postgres {
    /// Reads connection parameters out of a well-formed URL.
    pub fn from_url(url: String) -> (r: Postgres)
        requires
            spec_url_well_formed(url@),
        ensures
            ({
                let (us, pw, ho, po, db) = url_parts(url@);
                &&& r.user@ == us
                &&& r.password@ == pw
                &&& r.host@ == ho
                &&& r.port as int == dec_val(po)
                &&& r.database@ == db
                &&& r.state == ParserState::Host
            }),
    {
        match parse_url(url.as_str()) {
            Some(p) => p,
            None => {
                proof {
                    assert(false);
                }
                Postgres::default()
            },
        }
    }

    /// Renders the parameters as a connection URL.
    pub fn to_url(&self) -> (r: String)
        ensures
            r@ =~= "postgres://"@ + self.user@ + ":"@ + self.password@ + "@"@ + self.host@ + ":"@
                + dec_rep(self.port as nat) + "/"@ + self.database@,
    {
        let mut s = "postgres://".to_owned();
        s.append(self.user.as_str());
        s.append(":");
        s.append(self.password.as_str());
        s.append("@");
        s.append(self.host.as_str());
        s.append(":");
        s.append(u16_to_dec(self.port).as_str());
        s.append("/");
        s.append(self.database.as_str());
        s
    }

    /// Moves the interactive parser to its next field.
    pub fn next(&mut self)
        ensures
            final(self).state == spec_next(old(self).state),
            final(self).host == old(self).host,
            final(self).port == old(self).port,
            final(self).user == old(self).user,
            final(self).database == old(self).database,
            final(self).password == old(self).password,
    {
        self.state = match self.state {
            ParserState::Host => ParserState::Port,
            ParserState::Port => ParserState::User,
            ParserState::User => ParserState::DB,
            ParserState::DB => ParserState::PW,
            ParserState::PW => ParserState::Done,
            ParserState::Done => ParserState::Done,
        };
    }

    /// Takes one prompt answer for the current field: an empty answer
    /// keeps the host or port default; a port that does not read as one
    /// is refused and asked again.
    pub fn set(&mut self, buf: &str) -> (r: Result<(), MigrError>)
        requires
            old(self).state != ParserState::Done,
        ensures
            final(self).user@ == (if old(self).state == ParserState::User {
                buf@
            } else {
                old(self).user@
            }),
            final(self).database@ == (if old(self).state == ParserState::DB {
                buf@
            } else {
                old(self).database@
            }),
            final(self).password@ == (if old(self).state == ParserState::PW {
                buf@
            } else {
                old(self).password@
            }),
            final(self).host@ == (if old(self).state == ParserState::Host && buf@.len() > 0 {
                buf@
            } else {
                old(self).host@
            }),
            old(self).state != ParserState::Port ==> r is Ok && final(self).port == old(self).port
                && final(self).state == spec_next(old(self).state),
            old(self).state == ParserState::Port ==> {
                &&& (buf@.len() == 0 ==> r is Ok && final(self).port == old(self).port
                    && final(self).state == spec_next(old(self).state))
                &&& (buf@.len() > 0 && all_digits(buf@) && dec_val(buf@) <= u16::MAX ==> r is Ok
                    && final(self).port as int == dec_val(buf@) && final(self).state == spec_next(
                    old(self).state))
                &&& (buf@.len() > 0 && !(all_digits(buf@) && dec_val(buf@) <= u16::MAX) ==> (
                r matches Err(e) && e is InvalidPort) && final(self).port == old(self).port
                    && final(self).state == old(self).state)
            },
    {
        match self.state {
            ParserState::Host => {
                if buf.unicode_len() == 0 {
                    self.next();
                    return Ok(());
                }
                self.host = buf.to_owned();
                self.next();
                Ok(())
            },
            ParserState::Port => {
                if buf.unicode_len() == 0 {
                    self.next();
                    return Ok(());
                }
                match parse_port(buf) {
                    Some(v) => {
                        self.port = v;
                        self.next();
                        Ok(())
                    },
                    None => Err(MigrError::InvalidPort),
                }
            },
            ParserState::User => {
                self.user = buf.to_owned();
                self.next();
                Ok(())
            },
            ParserState::DB => {
                self.database = buf.to_owned();
                self.next();
                Ok(())
            },
            ParserState::PW => {
                self.password = buf.to_owned();
                self.next();
                Ok(())
            },
            ParserState::Done => {
                proof {
                    assert(false);
                }
                Ok(())
            },
        }
    }

    /// The text of the current prompt, default value included.
    pub fn prompt(&self) -> (r: String)
        ensures
            self.state == ParserState::Host ==> r@ == "Host ("@ + self.host@ + "): "@,
            self.state == ParserState::Port ==> r@ == "Port ("@ + dec_rep(self.port as nat)
                + "): "@,
            self.state == ParserState::User ==> r@ == "User ("@ + self.user@ + "): "@,
            self.state == ParserState::DB ==> r@ == "Database ("@ + self.database@ + "): "@,
            self.state == ParserState::PW ==> r@ == "Password ("@ + self.password@ + "): "@,
            self.state == ParserState::Done ==> r@ == "All done!"@,
    {
        match self.state {
            ParserState::Host => {
                let mut s = "Host (".to_owned();
                s.append(self.host.as_str());
                s.append("): ");
                s
            },
            ParserState::Port => {
                let mut s = "Port (".to_owned();
                s.append(u16_to_dec(self.port).as_str());
                s.append("): ");
                s
            },
            ParserState::User => {
                let mut s = "User (".to_owned();
                s.append(self.user.as_str());
                s.append("): ");
                s
            },
            ParserState::DB => {
                let mut s = "Database (".to_owned();
                s.append(self.database.as_str());
                s.append("): ");
                s
            },
            ParserState::PW => {
                let mut s = "Password (".to_owned();
                s.append(self.password.as_str());
                s.append("): ");
                s
            },
            ParserState::Done => { "All done!".to_owned() },
        }
    }

    /// Whether the interactive parser has read every field.
    pub fn done(&self) -> (b: bool)
        ensures
            b == (self.state == ParserState::Done),
    {
        self.state == ParserState::Done
    }
}

impl Default for Postgres {
    /// The local-development defaults the prompt starts from.
    fn default() -> (r: Postgres)
        ensures
            r.host@ == "localhost"@,
            r.port == 5432,
            r.user@ == "postgres"@,
            r.database@ == "postgres"@,
            r.password@ == "postgres"@,
            r.state == ParserState::Host,
    {
        Postgres {
            host: "localhost".to_owned(),
            port: 5432,
            user: "postgres".to_owned(),
            database: "postgres".to_owned(),
            password: "postgres".to_owned(),
            state: ParserState::Host,
        }
    }
}

} // verus!
