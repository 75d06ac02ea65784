//! Gopher item types as defined by RFC 1436.

use vstd::prelude::*;

verus! {

/// A Gopher item type. The comment after each variant is its RFC 1436
/// type character.
#[derive(Copy, Clone, PartialEq, Eq, Structural, Debug)]
pub enum Type {
    Text,  // 0
    Menu,  // 1
    CSOEntity,  // 2
    Error,  // 3
    Binhex,  // 4
    DOSFile,  // 5
    UUEncoded,  // 6
    Search,  // 7
    Telnet,  // 8
    Binary,  // 9
    Mirror,  // +
    GIF,  // g
    Telnet3270,  // T
    HTML,  // h
    Image,  // I
    PNG,  // p
    Info,  // i
    Sound,  // s
    Document,  // d
}

/// The RFC 1436 type character of `t`.
pub open spec fn spec_type_char(t: Type) -> char {
    match t {
        Type::Text => '0',
        Type::Menu => '1',
        Type::CSOEntity => '2',
        Type::Error => '3',
        Type::Binhex => '4',
        Type::DOSFile => '5',
        Type::UUEncoded => '6',
        Type::Search => '7',
        Type::Telnet => '8',
        Type::Binary => '9',
        Type::Mirror => '+',
        Type::GIF => 'g',
        Type::Telnet3270 => 'T',
        Type::HTML => 'h',
        Type::Image => 'I',
        Type::PNG => 'p',
        Type::Info => 'i',
        Type::Sound => 's',
        Type::Document => 'd',
    }
}

/// The item type a given RFC 1436 type character stands for, if any.
pub open spec fn spec_type_from(c: char) -> Option<Type> {
    match c {
        '0' => Some(Type::Text),
        '1' => Some(Type::Menu),
        '2' => Some(Type::CSOEntity),
        '3' => Some(Type::Error),
        '4' => Some(Type::Binhex),
        '5' => Some(Type::DOSFile),
        '6' => Some(Type::UUEncoded),
        '7' => Some(Type::Search),
        '8' => Some(Type::Telnet),
        '9' => Some(Type::Binary),
        '+' => Some(Type::Mirror),
        'g' => Some(Type::GIF),
        'T' => Some(Type::Telnet3270),
        'h' => Some(Type::HTML),
        'I' => Some(Type::Image),
        'p' => Some(Type::PNG),
        'i' => Some(Type::Info),
        's' => Some(Type::Sound),
        'd' => Some(Type::Document),
        _ => None,
    }
}

/// Whether `t` points at downloadable (binary-like) content.
pub open spec fn spec_is_download(t: Type) -> bool {
    t is Binhex || t is DOSFile || t is UUEncoded || t is Binary || t is GIF || t is Image
        || t is PNG || t is Sound || t is Document
}

impl Type {
    /// Is this an info line?
    pub fn is_info(self) -> (r: bool)
        ensures
            r == (self is Info),
    {
        self == Type::Info
    }

    /// Text document?
    pub fn is_text(self) -> (r: bool)
        ensures
            r == (self is Text),
    {
        self == Type::Text
    }

    /// HTML link?
    pub fn is_html(self) -> (r: bool)
        ensures
            r == (self is HTML),
    {
        self == Type::HTML
    }

    /// Telnet link?
    pub fn is_telnet(self) -> (r: bool)
        ensures
            r == (self is Telnet),
    {
        self == Type::Telnet
    }

    /// Is this a link, i.e. something that can be navigated to or opened?
    pub fn is_link(self) -> (r: bool)
        ensures
            r == !(self is Info),
    {
        !self.is_info()
    }

    /// Is this something that can be downloaded?
    pub fn is_download(self) -> (r: bool)
        ensures
            r == spec_is_download(self),
    {
        match self {
            Type::Binhex
            | Type::DOSFile
            | Type::UUEncoded
            | Type::Binary
            | Type::GIF
            | Type::Image
            | Type::PNG
            | Type::Sound
            | Type::Document => true,
            _ => false,
        }
    }

    /// Gopher item type to RFC 1436 type character.
    pub fn to_char(self) -> (r: char)
        ensures
            r == spec_type_char(self),
    {
        match self {
            Type::Text => '0',
            Type::Menu => '1',
            Type::CSOEntity => '2',
            Type::Error => '3',
            Type::Binhex => '4',
            Type::DOSFile => '5',
            Type::UUEncoded => '6',
            Type::Search => '7',
            Type::Telnet => '8',
            Type::Binary => '9',
            Type::Mirror => '+',
            Type::GIF => 'g',
            Type::Telnet3270 => 'T',
            Type::HTML => 'h',
            Type::Image => 'I',
            Type::PNG => 'p',
            Type::Info => 'i',
            Type::Sound => 's',
            Type::Document => 'd',
        }
    }

    /// Create a Gopher item type from its RFC 1436 type character.
    pub fn from(c: char) -> (r: Option<Type>)
        ensures
            r == spec_type_from(c),
    {
        match c {
            '0' => Some(Type::Text),
            '1' => Some(Type::Menu),
            '2' => Some(Type::CSOEntity),
            '3' => Some(Type::Error),
            '4' => Some(Type::Binhex),
            '5' => Some(Type::DOSFile),
            '6' => Some(Type::UUEncoded),
            '7' => Some(Type::Search),
            '8' => Some(Type::Telnet),
            '9' => Some(Type::Binary),
            '+' => Some(Type::Mirror),
            'g' => Some(Type::GIF),
            'T' => Some(Type::Telnet3270),
            'h' => Some(Type::HTML),
            'I' => Some(Type::Image),
            'p' => Some(Type::PNG),
            'i' => Some(Type::Info),
            's' => Some(Type::Sound),
            'd' => Some(Type::Document),
            _ => None,
        }
    }
}

} // verus!
