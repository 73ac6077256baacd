use vstd::prelude::*;

verus! {

/// The immutable description of a token class: display fields, a media
/// locator with its integrity hash, and the price of one copy.
pub struct NFTMetadata {
    pub title: String,
    pub description: String,
    pub media: String,
    pub media_hash: String,
    pub price_per_copy: u128,
    pub cover_photo: String,
}

/// The mathematical value of an [`NFTMetadata`]: every string as a
/// sequence of characters.
pub ghost struct MetaView {
    pub title: Seq<char>,
    pub description: Seq<char>,
    pub media: Seq<char>,
    pub media_hash: Seq<char>,
    pub price_per_copy: u128,
    pub cover_photo: Seq<char>,
}

impl View for NFTMetadata {
    type V = MetaView;

    open spec fn view(&self) -> MetaView {
        MetaView {
            title: self.title@,
            description: self.description@,
            media: self.media@,
            media_hash: self.media_hash@,
            price_per_copy: self.price_per_copy,
            cover_photo: self.cover_photo@,
        }
    }
}

impl DeepView for NFTMetadata {
    type V = MetaView;

    open spec fn deep_view(&self) -> MetaView {
        self.view()
    }
}

impl NFTMetadata {
    /// An exact copy.
    pub fn duplicate(&self) -> (r: NFTMetadata)
        ensures
            r@ == self@,
    {
        NFTMetadata {
            title: self.title.clone(),
            description: self.description.clone(),
            media: self.media.clone(),
            media_hash: self.media_hash.clone(),
            price_per_copy: self.price_per_copy,
            cover_photo: self.cover_photo.clone(),
        }
    }
}

/// The arguments of one mint call.  `metadata` is `Some` exactly when the
/// call is meant to create the class: either all of the class's description
/// arrives together, or none of it does.
pub struct SftMintArgs {
    pub token_class_id: String,
    pub amount: u64,
    pub receiver_id: String,
    pub metadata: Option<NFTMetadata>,
}

/// The mathematical value of a [`SftMintArgs`].
pub ghost struct MintArgsView {
    pub token_class_id: Seq<char>,
    pub amount: u64,
    pub receiver_id: Seq<char>,
    pub metadata: Option<MetaView>,
}

impl View for SftMintArgs {
    type V = MintArgsView;

    open spec fn view(&self) -> MintArgsView {
        MintArgsView {
            token_class_id: self.token_class_id@,
            amount: self.amount,
            receiver_id: self.receiver_id@,
            metadata: self.metadata.deep_view(),
        }
    }
}

impl DeepView for SftMintArgs {
    type V = MintArgsView;

    open spec fn deep_view(&self) -> MintArgsView {
        self.view()
    }
}

/// One row of the class listing: the class id, its description, and the
/// account that created it.
pub struct TokenClassMetadata {
    pub token_class_id: String,
    pub metadata: NFTMetadata,
    pub creator_id: String,
}

/// The mathematical value of a [`TokenClassMetadata`].
pub ghost struct TokenClassMetadataView {
    pub token_class_id: Seq<char>,
    pub metadata: MetaView,
    pub creator_id: Seq<char>,
}

impl View for TokenClassMetadata {
    type V = TokenClassMetadataView;

    open spec fn view(&self) -> TokenClassMetadataView {
        TokenClassMetadataView {
            token_class_id: self.token_class_id@,
            metadata: self.metadata@,
            creator_id: self.creator_id@,
        }
    }
}

impl DeepView for TokenClassMetadata {
    type V = TokenClassMetadataView;

    open spec fn deep_view(&self) -> TokenClassMetadataView {
        self.view()
    }
}

} // verus!
